//! Writing.
use crate::path::LogPath;
use crate::rotate::Rotation;
use crate::rotating_file::{Opening, RotatingFile};
use crate::storage::NewFile;
use crate::time::{TimeDelta, Timestamp};
use crate::write::Writing;
use std::io;
use vstd::prelude::*;

verus! {

/// A file that has reached the age limit is rotated, whatever is to be written and whatever the
/// other limits.
pub proof fn old_file_is_rotated<H>(
    file: RotatingFile<H>,
    bytes_to_write: usize,
    time: Timestamp,
    max_age: TimeDelta,
    res: bool,
)
    requires
        call_ensures(RotatingFile::<H>::should_rotate, (&file, bytes_to_write, time), res),
        file.limits.age == Some(max_age),
        (time.secs - file.current.began.secs) * 1_000_000_000 + (time.nanos
            - file.current.began.nanos) >= max_age.secs * 1_000_000_000 + max_age.nanos,
    ensures
        res,
{
}

/// A file is rotated that would exceed the size limit, at any time and whatever the other limits.
pub proof fn full_file_is_rotated<H>(
    file: RotatingFile<H>,
    bytes_to_write: usize,
    time: Timestamp,
    max_size: usize,
    res: bool,
)
    requires
        call_ensures(RotatingFile::<H>::should_rotate, (&file, bytes_to_write, time), res),
        file.limits.size == Some(max_size),
        file.current.bytes_written + bytes_to_write > max_size,
    ensures
        res,
{
}

/// A file that is rotated has reached the age limit, or would exceed the size limit.
pub proof fn other_files_are_not_rotated<H>(
    file: RotatingFile<H>,
    bytes_to_write: usize,
    time: Timestamp,
    res: bool,
)
    requires
        call_ensures(RotatingFile::<H>::should_rotate, (&file, bytes_to_write, time), res),
        file.limits.age matches Some(max_age) ==> (time.secs - file.current.began.secs)
            * 1_000_000_000 + (time.nanos - file.current.began.nanos) < max_age.secs * 1_000_000_000
            + max_age.nanos,
        file.limits.size matches Some(max_size) ==> file.current.bytes_written + bytes_to_write
            <= max_size,
    ensures
        !res,
{
}

/// A write that does not rotate finds a file younger than the age limit, which it does not take
/// over the size limit; one that rotates finds a file that is too old, or that it would.
pub proof fn write_rotates_where_it_is_due<H>(
    file: RotatingFile<H>,
    bytes_to_write: usize,
    time: Timestamp,
    first: Writing,
)
    requires
        call_ensures(Writing::start_at::<H>, (&file, bytes_to_write, time), first),
    ensures
        first == Writing::Write || first == Writing::Rotate(Rotation::Flush),
        first == Writing::Write <==> (file.limits.age matches Some(max_age) ==> (time.secs
            - file.current.began.secs) * 1_000_000_000 + (time.nanos - file.current.began.nanos)
            < max_age.secs * 1_000_000_000 + max_age.nanos) && (file.limits.size matches Some(
            max_size,
        ) ==> file.current.bytes_written + bytes_to_write <= max_size),
{
}

/// A write now is a write at some moment.
pub proof fn write_now_is_a_write_at_some_moment<H>(
    file: RotatingFile<H>,
    bytes_to_write: usize,
    first: Writing,
)
    requires
        call_ensures(Writing::start::<H>, (&file, bytes_to_write), first),
    ensures
        first == Writing::Write || first == Writing::Rotate(Rotation::Flush),
        file.limits.size matches Some(max_size) && file.current.bytes_written + bytes_to_write
            > max_size ==> first == Writing::Rotate(Rotation::Flush),
        file.limits.age is None && (file.limits.size matches Some(max_size)
            ==> file.current.bytes_written + bytes_to_write <= max_size) ==> first
            == Writing::Write,
{
}

/// Every byte that is written counts, whatever the limits; nothing else changes, and the outcome is
/// passed on. A write that fails changes nothing.
pub proof fn written_bytes_are_counted<H>(
    file: &mut RotatingFile<H>,
    outcome: Result<usize, io::Error>,
    res: Result<usize, io::Error>,
)
    requires
        call_ensures(RotatingFile::<H>::write, (file, outcome), res),
    ensures
        res == outcome,
        outcome is Err ==> *final(file) == *old(file),
        outcome matches Ok(written)
            ==> final(file).current.bytes_written == old(file).current.bytes_written + written,
        final(file).current.path == old(file).current.path,
        final(file).current.began == old(file).current.began,
        final(file).current.number == old(file).current.number,
        final(file).storage == old(file).storage,
        final(file).limits == old(file).limits,
        final(file).state == old(file).state,
        final(file).work == old(file).work,
{
}

/// Two writes count as one of both lengths.
pub proof fn writes_add_up<H>(
    first: &mut RotatingFile<H>,
    second: &mut RotatingFile<H>,
    a: usize,
    b: usize,
    once: &mut RotatingFile<H>,
    both: usize,
    x: Result<usize, io::Error>,
    y: Result<usize, io::Error>,
    z: Result<usize, io::Error>,
)
    requires
        call_ensures(RotatingFile::<H>::write, (first, Ok(a)), x),
        *old(second) == *final(first),
        call_ensures(RotatingFile::<H>::write, (second, Ok(b)), y),
        *old(once) == *old(first),
        both == a + b,
        call_ensures(RotatingFile::<H>::write, (once, Ok(both)), z),
    ensures
        *final(second) == *final(once),
{
}

/// The rotation of a write flushes the current file before it syncs it. Where that fails, the write
/// fails with that error.
pub proof fn write_flushes_before_it_syncs<H>(
    file: &mut RotatingFile<H>,
    outcome: Result<(), io::Error>,
    next: Result<Writing, io::Error>,
)
    requires
        call_ensures(Writing::resume::<H>, (Writing::Rotate(Rotation::Flush), file, outcome), next),
    ensures
        *final(file) == *old(file),
        outcome is Ok ==> next == Ok::<Writing, io::Error>(Writing::Rotate(Rotation::Sync)),
        outcome matches Err(error) ==> next == Err::<Writing, io::Error>(error),
{
}

/// The rotation of a write deletes the first file of the listing where the listed files, the
/// current one and the next one are more than the limit allows, whatever the other limits;
/// otherwise the current file is compressed.
pub proof fn write_syncs_before_it_deletes<H>(
    file: &mut RotatingFile<H>,
    outcome: Result<(), io::Error>,
    next: Result<Writing, io::Error>,
)
    requires
        call_ensures(Writing::resume::<H>, (Writing::Rotate(Rotation::Sync), file, outcome), next),
    ensures
        *final(file) == *old(file),
        outcome is Ok ==> if (old(file).limits.files matches Some(max_files)
            && old(file).state@.len() + 2 > max_files) && old(file).state@.len() > 0 {
            next matches Ok(Writing::Rotate(Rotation::Remove(path))) && path@ == old(file).state@[0]
        } else {
            next == Ok::<Writing, io::Error>(Writing::Rotate(Rotation::Compress))
        },
        outcome matches Err(error) ==> next == Err::<Writing, io::Error>(error),
{
}

/// A file that the rotation of a write has deleted is no longer listed; all others are. Then the
/// next one is deleted, by the same rule, or the current file is compressed.
pub proof fn write_deletes_one_file_at_a_time<H>(
    path: LogPath,
    file: &mut RotatingFile<H>,
    outcome: Result<(), io::Error>,
    next: Result<Writing, io::Error>,
)
    requires
        call_ensures(
            Writing::resume::<H>,
            (Writing::Rotate(Rotation::Remove(path)), file, outcome),
            next,
        ),
        old(file).state@.len() > 0,
        path@ == old(file).state@[0],
    ensures
        final(file).storage == old(file).storage,
        final(file).limits == old(file).limits,
        final(file).current == old(file).current,
        final(file).work == old(file).work,
        (match outcome {
            Ok(_) => {
                let kept = old(file).state@.drop_first();
                &&& final(file).state@ == kept
                &&& if (old(file).limits.files matches Some(max_files) && kept.len() + 2
                    > max_files) && kept.len() > 0 {
                    next matches Ok(Writing::Rotate(Rotation::Remove(oldest))) && oldest@ == kept[0]
                } else {
                    next == Ok::<Writing, io::Error>(Writing::Rotate(Rotation::Compress))
                }
            },
            Err(error) => {
                &&& final(file).state == old(file).state
                &&& next == Err::<Writing, io::Error>(error)
            },
        }),
{
    if outcome is Ok {
        let listed = old(file).state@;
        assert(listed[0] == path@);
        assert(listed.remove(0) =~= listed.drop_first());
    }
}

/// The rotation of a write waits for its compression to be started, and the write itself for
/// nothing.
pub proof fn write_stays_at_its_step<H>(
    file: &mut RotatingFile<H>,
    outcome: Result<(), io::Error>,
    next: Result<Writing, io::Error>,
    over: &mut RotatingFile<H>,
    end: Result<Writing, io::Error>,
)
    requires
        call_ensures(
            Writing::resume::<H>,
            (Writing::Rotate(Rotation::Compress), file, outcome),
            next,
        ),
        call_ensures(Writing::resume::<H>, (Writing::Write, over, outcome), end),
    ensures
        *final(file) == *old(file),
        next == Ok::<Writing, io::Error>(Writing::Rotate(Rotation::Compress)),
        *final(over) == *old(over),
        end == Ok::<Writing, io::Error>(Writing::Write),
{
}

/// The compression that the rotation of a write has started is recorded behind those that run,
/// under an id that none of them has. Then a file is opened that begins at that moment.
pub proof fn write_records_its_compression<H>(
    file: &mut RotatingFile<H>,
    handle: H,
    began: Timestamp,
    next: Writing,
)
    requires
        call_ensures(
            Writing::started_at::<H>,
            (Writing::Rotate(Rotation::Compress), file, handle, began),
            next,
        ),
        old(file).work.is_valid(),
    ensures
        final(file).storage == old(file).storage,
        final(file).limits == old(file).limits,
        final(file).current == old(file).current,
        final(file).state == old(file).state,
        final(file).work@.len() == old(file).work@.len() + 1,
        final(file).work@.drop_last() == old(file).work@,
        final(file).work@.last().1 == handle,
        forall|i: int|
            0 <= i < old(file).work@.len()
                ==> (#[trigger] old(file).work@[i]).0 != final(file).work@.last().0,
        next matches Writing::Rotate(Rotation::Open(opened)) && opened.began == began
            && opened.number == 0,
{
    assert(final(file).work@.drop_last() =~= old(file).work@);
}

/// Once the next file is created the write goes to it: it is the current one, and empty. Where the
/// name is taken another file of that moment is tried, with the next number. Where that fails the
/// write fails with that error.
pub proof fn write_goes_to_the_created_file<H>(
    opened: NewFile,
    file: &mut RotatingFile<H>,
    opening: Opening,
    next: Result<Writing, io::Error>,
)
    requires
        call_ensures(
            Writing::opened::<H>,
            (Writing::Rotate(Rotation::Open(opened)), file, opening),
            next,
        ),
    ensures
        final(file).storage == old(file).storage,
        final(file).limits == old(file).limits,
        final(file).state == old(file).state,
        final(file).work == old(file).work,
        !(opening is Created) ==> final(file).current == old(file).current,
        (match opening {
            Opening::Created => {
                &&& next == Ok::<Writing, io::Error>(Writing::Write)
                &&& final(file).current.path == opened.path
                &&& final(file).current.began == opened.began
                &&& final(file).current.number == opened.number
                &&& final(file).current.bytes_written == 0
            },
            Opening::Exists(error) | Opening::CompressedExists(error) => if opened.number
                < u64::MAX {
                next matches Ok(Writing::Rotate(Rotation::Open(numbered))) && numbered.began
                    == opened.began && numbered.number == opened.number + 1
            } else {
                next == Err::<Writing, io::Error>(error)
            },
            Opening::Failed(error) => next == Err::<Writing, io::Error>(error),
        }),
{
}

/// The rotation of a write deletes files from the front of the listing, one by one and in order: as
/// many as the listed files, the current one and the next one are too many, or all that are listed.
/// Without a limit on their number it deletes none.
pub proof fn write_deletes_as_many_as_are_too_many<H>(
    files: Seq<RotatingFile<H>>,
    steps: Seq<Writing>,
)
    requires
        files.len() == steps.len(),
        steps.len() > 1,
        steps[0] == Writing::Rotate(Rotation::Sync),
        steps.last() == Writing::Rotate(Rotation::Compress),
        forall|i: int|
            #![trigger steps[i]]
            0 <= i < steps.len() - 1 ==> steps[i] != Writing::Rotate(Rotation::Compress)
                && exists|file: &mut RotatingFile<H>|
                *file == files[i] && *final(file) == files[i + 1] && #[trigger] call_ensures(
                    Writing::resume::<H>,
                    (steps[i], file, Ok(())),
                    Ok(steps[i + 1]),
                ),
    ensures
        ({
            let listed = files[0].state@;
            let deleted = steps.len() - 2;
            &&& 0 <= deleted <= listed.len()
            &&& files.last().state@ == listed.skip(deleted)
            &&& files.last().current == files[0].current
            &&& files.last().limits == files[0].limits
            &&& files.last().storage == files[0].storage
            &&& files.last().work == files[0].work
            &&& forall|i: int|
                0 < i <= deleted ==> ((#[trigger] steps[i]) matches Writing::Rotate(
                    Rotation::Remove(path),
                ) && path@ == listed[i - 1])
            &&& match files[0].limits.files {
                None => deleted == 0,
                Some(max_files) => {
                    &&& listed.len() - deleted + 2 <= max_files || deleted == listed.len()
                    &&& deleted > 0 ==> listed.len() - deleted + 3 > max_files
                },
            }
        }),
{
    let last = steps.len() - 1;
    deletions_so_far(files, steps, last);
    if last >= 2 {
        deletions_so_far(files, steps, last - 1);
    }
    let listed = files[0].state@;
    assert forall|i: int| 0 < i <= last - 1 implies ((#[trigger] steps[i]) matches Writing::Rotate(
        Rotation::Remove(path),
    ) && path@ == listed[i - 1]) by {
        deletions_so_far(files, steps, i);
        assert(steps[i] != Writing::Rotate(Rotation::Compress));
    }
}

/// What has been deleted before step `k`.
proof fn deletions_so_far<H>(files: Seq<RotatingFile<H>>, steps: Seq<Writing>, k: int)
    requires
        files.len() == steps.len(),
        steps.len() > 1,
        steps[0] == Writing::Rotate(Rotation::Sync),
        forall|i: int|
            #![trigger steps[i]]
            0 <= i < steps.len() - 1 ==> steps[i] != Writing::Rotate(Rotation::Compress)
                && exists|file: &mut RotatingFile<H>|
                *file == files[i] && *final(file) == files[i + 1] && #[trigger] call_ensures(
                    Writing::resume::<H>,
                    (steps[i], file, Ok(())),
                    Ok(steps[i + 1]),
                ),
        0 < k < steps.len(),
    ensures
        k - 1 <= files[0].state@.len(),
        files[k].state@ == files[0].state@.skip(k - 1),
        files[k].current == files[0].current,
        files[k].limits == files[0].limits,
        files[k].storage == files[0].storage,
        files[k].work == files[0].work,
        if (files[0].limits.files matches Some(max_files) && files[k].state@.len() + 2 > max_files)
            && files[k].state@.len() > 0 {
            steps[k] matches Writing::Rotate(Rotation::Remove(path)) && path@ == files[k].state@[0]
        } else {
            steps[k] == Writing::Rotate(Rotation::Compress)
        },
    decreases k,
{
    assert(steps[k - 1] != Writing::Rotate(Rotation::Compress));
    let file = choose|file: &mut RotatingFile<H>|
        *file == files[k - 1] && *final(file) == files[k] && #[trigger] call_ensures(
            Writing::resume::<H>,
            (steps[k - 1], file, Ok(())),
            Ok(steps[k]),
        );
    if k == 1 {
        write_syncs_before_it_deletes(file, Ok(()), Ok(steps[1]));
        assert(files[0].state@.skip(0) =~= files[0].state@);
    } else {
        deletions_so_far(files, steps, k - 1);
        let path = steps[k - 1]->Rotate_0->Remove_0;
        write_deletes_one_file_at_a_time(path, file, Ok(()), Ok(steps[k]));
        assert(files[0].state@.skip(k - 2).drop_first() =~= files[0].state@.skip(k - 1));
    }
}

} // verus!
