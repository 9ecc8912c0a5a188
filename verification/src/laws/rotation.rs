//! Rotation.
use crate::errors::{NewFileError, RotateError};
use crate::path::LogPath;
use crate::rotate::Rotation;
use crate::rotating_file::{Attempt, Opening, RotatingFile};
use crate::storage::NewFile;
use crate::time::Timestamp;
use std::io;
use vstd::prelude::*;

verus! {

/// A rotation begins by flushing the current file.
pub proof fn rotation_begins_with_a_flush(step: Rotation)
    requires
        call_ensures(Rotation::start, (), step),
    ensures
        step == Rotation::Flush,
{
}

/// The current file is flushed before it is synced. Where that fails, the error names it.
pub proof fn flush_comes_before_sync<H>(
    file: &mut RotatingFile<H>,
    outcome: Result<(), io::Error>,
    next: Result<Rotation, RotateError>,
)
    requires
        call_ensures(Rotation::resume::<H>, (Rotation::Flush, file, outcome), next),
    ensures
        *final(file) == *old(file),
        (match outcome {
            Ok(_) => next == Ok::<Rotation, RotateError>(Rotation::Sync),
            Err(error) => next matches Err(RotateError::Flush(path, cause))
                && path@ == old(file).current.path@ && cause == error,
        }),
{
}

/// Once the current file is synced, the first file of the listing is deleted where the listed
/// files, the current one and the next one are more than the limit allows, whatever the other
/// limits; otherwise the current file is compressed.
pub proof fn sync_comes_before_deletion<H>(
    file: &mut RotatingFile<H>,
    outcome: Result<(), io::Error>,
    next: Result<Rotation, RotateError>,
)
    requires
        call_ensures(Rotation::resume::<H>, (Rotation::Sync, file, outcome), next),
    ensures
        *final(file) == *old(file),
        (match outcome {
            Ok(_) => if (old(file).limits.files matches Some(max_files) && old(file).state@.len()
                + 2 > max_files) && old(file).state@.len() > 0 {
                next matches Ok(Rotation::Remove(path)) && path@ == old(file).state@[0]
            } else {
                next == Ok::<Rotation, RotateError>(Rotation::Compress)
            },
            Err(error) => next matches Err(RotateError::Sync(path, cause))
                && path@ == old(file).current.path@ && cause == error,
        }),
{
}

/// A file that has been deleted is no longer listed; all others are, and nothing else changes. Then
/// the next one is deleted, by the same rule, or the current file is compressed. One that could not
/// be deleted stays listed, and the error names it.
pub proof fn deletion_forgets_one_file<H>(
    path: LogPath,
    file: &mut RotatingFile<H>,
    outcome: Result<(), io::Error>,
    next: Result<Rotation, RotateError>,
)
    requires
        call_ensures(Rotation::resume::<H>, (Rotation::Remove(path), file, outcome), next),
        old(file).state@.len() > 0,
        path@ == old(file).state@[0],
    ensures
        final(file).storage == old(file).storage,
        final(file).limits == old(file).limits,
        final(file).current == old(file).current,
        final(file).work == old(file).work,
        (match outcome {
            Ok(_) => {
                let kept = old(file).state@.drop_first();
                &&& final(file).state@ == kept
                &&& if (old(file).limits.files matches Some(max_files) && kept.len() + 2
                    > max_files) && kept.len() > 0 {
                    next matches Ok(Rotation::Remove(oldest)) && oldest@ == kept[0]
                } else {
                    next == Ok::<Rotation, RotateError>(Rotation::Compress)
                }
            },
            Err(error) => {
                &&& final(file).state == old(file).state
                &&& next == Err::<Rotation, RotateError>(RotateError::Remove(path, error))
            },
        }),
{
    if outcome is Ok {
        let listed = old(file).state@;
        assert(listed[0] == path@);
        assert(listed.remove(0) =~= listed.drop_first());
    }
}

/// Nothing but the start of a compression leads on from that step, and nothing leads on from the
/// end.
pub proof fn compression_is_awaited<H>(
    file: &mut RotatingFile<H>,
    outcome: Result<(), io::Error>,
    next: Result<Rotation, RotateError>,
    over: &mut RotatingFile<H>,
    end: Result<Rotation, RotateError>,
)
    requires
        call_ensures(Rotation::resume::<H>, (Rotation::Compress, file, outcome), next),
        call_ensures(Rotation::resume::<H>, (Rotation::Done, over, outcome), end),
    ensures
        *final(file) == *old(file),
        next == Ok::<Rotation, RotateError>(Rotation::Compress),
        *final(over) == *old(over),
        end == Ok::<Rotation, RotateError>(Rotation::Done),
{
}

/// A compression that has been started is recorded behind those that run, under an id that none of
/// them has. Then a file is opened that begins at that moment; nothing else changes.
pub proof fn started_compression_runs<H>(
    file: &mut RotatingFile<H>,
    handle: H,
    began: Timestamp,
    next: Rotation,
)
    requires
        call_ensures(
            Rotation::started_at::<H>,
            (Rotation::Compress, file, handle, began),
            next,
        ),
        old(file).work.is_valid(),
    ensures
        final(file).storage == old(file).storage,
        final(file).limits == old(file).limits,
        final(file).current == old(file).current,
        final(file).state == old(file).state,
        final(file).work@.len() == old(file).work@.len() + 1,
        final(file).work@.drop_last() == old(file).work@,
        final(file).work@.last().1 == handle,
        forall|i: int|
            0 <= i < old(file).work@.len()
                ==> (#[trigger] old(file).work@[i]).0 != final(file).work@.last().0,
        next matches Rotation::Open(opened) && opened.began == began && opened.number == 0,
{
    assert(final(file).work@.drop_last() =~= old(file).work@);
}

/// A file that has been created is the current one, and empty. One that could not be is not, and
/// the error names it.
pub proof fn created_file_is_current<H>(
    opened: NewFile,
    file: &mut RotatingFile<H>,
    outcome: Result<(), io::Error>,
    next: Result<Rotation, RotateError>,
)
    requires
        call_ensures(Rotation::resume::<H>, (Rotation::Open(opened), file, outcome), next),
    ensures
        final(file).storage == old(file).storage,
        final(file).limits == old(file).limits,
        final(file).state == old(file).state,
        final(file).work == old(file).work,
        (match outcome {
            Ok(_) => {
                &&& next == Ok::<Rotation, RotateError>(Rotation::Done)
                &&& final(file).current.path == opened.path
                &&& final(file).current.began == opened.began
                &&& final(file).current.number == opened.number
                &&& final(file).current.bytes_written == 0
            },
            Err(error) => {
                &&& next == Err::<Rotation, RotateError>(
                    RotateError::NewFile(NewFileError::Open(opened.path, error)),
                )
                &&& final(file).current == old(file).current
            },
        }),
{
}

/// An attempt to create a file succeeds, fails, or finds the name taken: by the file or by its
/// compressed form.
pub proof fn attempts_are_told_apart(
    error: io::Error,
    a: Attempt,
    b: Attempt,
    c: Attempt,
    d: Attempt,
)
    requires
        call_ensures(Opening::judge, (Opening::Created,), a),
        call_ensures(Opening::judge, (Opening::Failed(error),), b),
        call_ensures(Opening::judge, (Opening::Exists(error),), c),
        call_ensures(Opening::judge, (Opening::CompressedExists(error),), d),
    ensures
        a == Attempt::Tried(Ok(())),
        b == Attempt::Tried(Err(error)),
        c == Attempt::Taken(error),
        d == Attempt::Taken(error),
{
}

/// Where the name of the next file is taken, a file of the same moment with the next number is
/// tried. The rotating file stays as it is. Where there is no next number, the error is returned.
pub proof fn taken_name_leads_to_the_next<H>(
    opened: NewFile,
    file: &mut RotatingFile<H>,
    error: io::Error,
    opening: Opening,
    next: Result<Rotation, RotateError>,
)
    requires
        opening == Opening::Exists(error) || opening == Opening::CompressedExists(error),
        call_ensures(Rotation::opened::<H>, (Rotation::Open(opened), file, opening), next),
    ensures
        *final(file) == *old(file),
        opened.number < u64::MAX ==> (next matches Ok(Rotation::Open(numbered)) && numbered.began
            == opened.began && numbered.number == opened.number + 1),
        opened.number == u64::MAX ==> next == Err::<Rotation, RotateError>(
            RotateError::NewFile(NewFileError::Open(opened.path, error)),
        ),
{
}

/// An attempt that finds the name free has the outcome of the creation.
pub proof fn free_name_is_used<H>(
    opened: NewFile,
    file: &mut RotatingFile<H>,
    error: io::Error,
    opening: Opening,
    next: Result<Rotation, RotateError>,
)
    requires
        opening == Opening::Created || opening == Opening::Failed(error),
        call_ensures(Rotation::opened::<H>, (Rotation::Open(opened), file, opening), next),
    ensures
        final(file).storage == old(file).storage,
        final(file).limits == old(file).limits,
        final(file).state == old(file).state,
        final(file).work == old(file).work,
        opening is Created ==> next == Ok::<Rotation, RotateError>(Rotation::Done)
            && final(file).current.path == opened.path
            && final(file).current.began == opened.began
            && final(file).current.number == opened.number
            && final(file).current.bytes_written == 0,
        opening is Failed ==> next == Err::<Rotation, RotateError>(
            RotateError::NewFile(NewFileError::Open(opened.path, error)),
        ) && final(file).current == old(file).current,
{
}

} // verus!
