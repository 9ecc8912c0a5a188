//! Rotation: completing the current file and moving on to the next.
//!
//! A rotation is a sequence of steps. Each names what is to be done on disk; told how that went,
//! it yields the step that follows, or the error with which the rotation ends.
use crate::errors::{NewFileError, RotateError};
use crate::order::{path_lt, Parts};
use crate::path::{extension, LogPath};
use crate::rotating_file::{current_file_is_not_listed, Attempt, Opening, RotatingFile};
use crate::storage::{gz, NewFile, Storage};
use crate::time::Timestamp;
use crate::work::WorkId;
use std::io;
use vstd::prelude::*;

verus! {

/// What a rotation has to do next.
pub enum Rotation {
    /// Flush the current file.
    Flush,
    /// Sync the current file to disk.
    Sync,
    /// Delete this file, the first of the listing, from disk. Files begun at different moments are
    /// listed by age, so it is the oldest; those of one moment are listed by name and have no
    /// order of age.
    Remove(LogPath),
    /// Start a background compression of the current file
    /// ([`RotatingFile::current_compression`]), and hand its handle to [`Rotation::started`].
    Compress,
    /// Create this file, and hand the outcome to [`Rotation::opened`].
    Open(NewFile),
    /// Nothing: the rotation is complete.
    Done,
}

/// The file to delete before the next one is opened, if the current one, the next one and those
/// listed are too many.
pub open spec fn next_removal<H>(file: RotatingFile<H>) -> Option<Parts> {
    match file.limits.files {
        Some(max_files) => if file.files_counted() + 1 > max_files && file.state@.len() > 0 {
            Some(file.state@[0])
        } else {
            None
        },
        None => None,
    }
}

/// The step once the current file is safe on disk: delete an old file, or go on.
pub open spec fn is_next_after_sync<H>(file: RotatingFile<H>, next: Rotation) -> bool {
    match next_removal(file) {
        Some(oldest) => next matches Rotation::Remove(path) && path@ == oldest,
        None => next is Compress,
    }
}

/// How a rotation proceeds: from a step and its outcome to the next step or the error, and what
/// changes in the rotating file.
pub open spec fn rotation_step<H>(
    step: Rotation,
    before: RotatingFile<H>,
    outcome: Result<(), io::Error>,
    after: RotatingFile<H>,
    next: Result<Rotation, RotateError>,
) -> bool {
    match (step, outcome) {
        (Rotation::Flush, Ok(_)) => {
            &&& after == before
            &&& next == Ok::<Rotation, RotateError>(Rotation::Sync)
        },
        (Rotation::Flush, Err(error)) => {
            &&& after == before
            &&& next matches Err(RotateError::Flush(path, cause)) && path@ == before.current.path@
                && cause == error
        },
        (Rotation::Sync, Ok(_)) => {
            &&& after == before
            &&& next matches Ok(step) && is_next_after_sync(before, step)
        },
        (Rotation::Sync, Err(error)) => {
            &&& after == before
            &&& next matches Err(RotateError::Sync(path, cause)) && path@ == before.current.path@
                && cause == error
        },
        (Rotation::Remove(removed), Ok(_)) => {
            &&& after == (RotatingFile { state: after.state, ..before })
            &&& forall|path: Parts|
                after.state@.contains(path) <==> before.state@.contains(path) && path != removed@
            &&& forall|i: int|
                0 <= i < before.state@.len() && (#[trigger] before.state@[i]) == removed@
                    ==> after.state@ == before.state@.remove(i)
            &&& next matches Ok(step) && is_next_after_sync(after, step)
        },
        (Rotation::Remove(path), Err(error)) => {
            &&& after == before
            &&& next == Err::<Rotation, RotateError>(RotateError::Remove(path, error))
        },
        (Rotation::Compress, _) => {
            &&& after == before
            &&& next == Ok::<Rotation, RotateError>(Rotation::Compress)
        },
        (Rotation::Open(file), Ok(_)) => {
            &&& after == (RotatingFile {
                current: file.as_current(),
                ..before
            })
            &&& next == Ok::<Rotation, RotateError>(Rotation::Done)
        },
        (Rotation::Open(file), Err(error)) => {
            &&& after == before
            &&& next == Err::<Rotation, RotateError>(
                RotateError::NewFile(NewFileError::Open(file.path, error)),
            )
        },
        (Rotation::Done, _) => {
            &&& after == before
            &&& next == Ok::<Rotation, RotateError>(Rotation::Done)
        },
    }
}

/// How a rotation proceeds once the current file is being compressed: the compression is recorded
/// under the next id, and a new file is to be opened.
pub open spec fn rotation_started<H>(
    before: RotatingFile<H>,
    handle: H,
    after: RotatingFile<H>,
    next: Rotation,
) -> bool {
    &&& after == (RotatingFile { work: after.work, ..before })
    &&& after.work@ == before.work@.push((WorkId(before.work.next()), handle))
    &&& after.work.next() == before.work.next() + 1
    &&& next matches Rotation::Open(file) && file.is_for(before.storage) && file.number == 0
}

/// How a rotation proceeds when the name of the file to open is taken: with the next number.
pub open spec fn rotation_name_taken(
    step: Rotation,
    storage: Storage,
    error: io::Error,
    next: Result<Rotation, RotateError>,
) -> bool {
    &&& step matches Rotation::Open(file)
    &&& match next {
        Ok(following) => {
            &&& file.number < u64::MAX
            &&& following matches Rotation::Open(numbered) && file.is_followed_by(storage, numbered)
        },
        Err(failure) => {
            &&& file.number == u64::MAX
            &&& failure == RotateError::NewFile(NewFileError::Open(file.path, error))
        },
    }
}

/// How a rotation proceeds from the attempt to create the next file: with the next number where the
/// name is taken.
pub open spec fn rotation_opened<H>(
    step: Rotation,
    before: RotatingFile<H>,
    opening: Opening,
    after: RotatingFile<H>,
    next: Result<Rotation, RotateError>,
) -> bool {
    match opening.attempt() {
        Attempt::Taken(error) => {
            &&& after == before
            &&& rotation_name_taken(step, before.storage, error, next)
        },
        Attempt::Tried(outcome) => rotation_step(step, before, outcome, after, next),
    }
}

impl Rotation {
    /// A file to be opened belongs to that storage.
    pub open spec fn is_valid<H>(self, file: RotatingFile<H>) -> bool {
        self matches Rotation::Open(next) ==> next.is_for(file.storage)
    }

    /// The first step of a rotation.
    pub fn start() -> (res: Rotation)
        ensures
            res is Flush,
    {
        Rotation::Flush
    }

    /// The step once the current file is safe on disk, or an old file is gone.
    fn prune_or_compress<H>(file: &RotatingFile<H>) -> (res: Rotation)
        ensures
            is_next_after_sync(*file, res),
    {
        if let Some(max_files) = file.limits.files {
            let counted: u128 = file.state.len() as u128 + 1;
            if counted + 1 > max_files as u128 {
                if let Some(oldest) = file.state.first() {
                    return Rotation::Remove(oldest);
                }
            }
        }
        Rotation::Compress
    }

    /// Goes on, now that the step has been tried with this outcome. Where a compression is to be
    /// started, see [`Rotation::started`].
    pub fn resume<H>(self, file: &mut RotatingFile<H>, outcome: Result<(), io::Error>) -> (next:
        Result<Rotation, RotateError>)
        requires
            old(file).is_valid(),
            self.is_valid(*old(file)),
        ensures
            final(file).is_valid(),
            rotation_step(self, *old(file), outcome, *final(file), next),
            next matches Ok(step) ==> step.is_valid(*final(file)),
    {
        match self {
            Rotation::Flush => match outcome {
                Ok(_) => Ok(Rotation::Sync),
                Err(error) => Err(RotateError::Flush(file.current.path.clone(), error)),
            },
            Rotation::Sync => match outcome {
                Ok(_) => Ok(Self::prune_or_compress(file)),
                Err(error) => Err(RotateError::Sync(file.current.path.clone(), error)),
            },
            Rotation::Remove(path) => match outcome {
                Ok(_) => {
                    file.state.remove(&path);
                    Ok(Self::prune_or_compress(file))
                },
                Err(error) => Err(RotateError::Remove(path, error)),
            },
            Rotation::Compress => Ok(Rotation::Compress),
            Rotation::Open(next) => match next.opened(outcome) {
                Ok(current) => {
                    file.current = current;
                    assert(file.current.file() == next);
                    Ok(Rotation::Done)
                },
                Err(error) => Err(RotateError::from(error)),
            },
            Rotation::Done => Ok(Rotation::Done),
        }
    }

    /// Goes on, now that the compression of the current file has been started.
    pub fn started<H>(self, file: &mut RotatingFile<H>, handle: H) -> (next: Rotation)
        requires
            self is Compress,
            old(file).is_valid(),
            old(file).work.next() < u64::MAX,
        ensures
            final(file).is_valid(),
            rotation_started(*old(file), handle, *final(file), next),
            next.is_valid(*final(file)),
    {
        self.started_at(file, handle, Timestamp::now())
    }

    /// Goes on, now that the compression of the current file has been started: the next file is
    /// begun at this moment.
    pub fn started_at<H>(self, file: &mut RotatingFile<H>, handle: H, began: Timestamp) -> (next:
        Rotation)
        requires
            self is Compress,
            began.is_valid(),
            old(file).is_valid(),
            old(file).work.next() < u64::MAX,
        ensures
            final(file).is_valid(),
            rotation_started(*old(file), handle, *final(file), next),
            next matches Rotation::Open(opened) && opened.began == began,
            next.is_valid(*final(file)),
    {
        file.enqueue_compression(handle);
        Rotation::Open(file.storage.open_new_file_at(began))
    }

    /// Goes on, now that the next file has been tried to create with this outcome.
    pub fn opened<H>(self, file: &mut RotatingFile<H>, opening: Opening) -> (next: Result<
        Rotation,
        RotateError,
    >)
        requires
            self is Open,
            old(file).is_valid(),
            self.is_valid(*old(file)),
        ensures
            final(file).is_valid(),
            rotation_opened(self, *old(file), opening, *final(file), next),
            next matches Ok(step) ==> step.is_valid(*final(file)),
    {
        match opening.judge() {
            Attempt::Taken(error) => self.name_taken(file, error),
            Attempt::Tried(outcome) => self.resume(file, outcome),
        }
    }

    /// Goes on, now that the file to open turned out to exist already, with this error.
    pub fn name_taken<H>(self, file: &RotatingFile<H>, error: io::Error) -> (next: Result<
        Rotation,
        RotateError,
    >)
        requires
            self is Open,
            self.is_valid(*file),
        ensures
            rotation_name_taken(self, file.storage, error, next),
            next matches Ok(step) ==> step.is_valid(*file),
    {
        match self {
            Rotation::Open(taken) => match taken.next_name(&file.storage, error) {
                Ok(numbered) => Ok(Rotation::Open(numbered)),
                Err(failure) => Err(RotateError::from(failure)),
            },
            step => Ok(step),
        }
    }
}

/// How many files a rotation deletes: as many as are too many, counting the file it will open, but
/// none that is not listed.
pub open spec fn excess<H>(file: RotatingFile<H>) -> nat {
    match file.limits.files {
        Some(max_files) => if file.files_counted() + 1 <= max_files {
            0
        } else if file.files_counted() + 1 - max_files <= file.state@.len() {
            (file.files_counted() + 1 - max_files) as nat
        } else {
            file.state@.len()
        },
        None => 0,
    }
}

/// A run of steps that deletes files, each successfully, from the sync of the current file on.
pub open spec fn is_pruning_run<H>(run: Seq<RotatingFile<H>>, steps: Seq<Rotation>) -> bool {
    &&& run.len() > 0
    &&& steps.len() == run.len()
    &&& is_next_after_sync(run[0], steps[0])
    &&& forall|i: int|
        #![trigger run[i]]
        0 <= i < run.len() - 1 ==> steps[i] is Remove && rotation_step(
            steps[i],
            run[i],
            Ok(()),
            run[i + 1],
            Ok(steps[i + 1]),
        )
}

/// After `k` deletions the listing has lost its first `k` files, and nothing else has changed.
proof fn pruned_so_far<H>(run: Seq<RotatingFile<H>>, steps: Seq<Rotation>, k: int)
    requires
        is_pruning_run(run, steps),
        0 <= k < run.len(),
    ensures
        run[k].state@ == run[0].state@.skip(k),
        k <= run[0].state@.len(),
        run[k] == (RotatingFile { state: run[k].state, ..run[0] }),
        is_next_after_sync(run[k], steps[k]),
    decreases k,
{
    if k == 0 {
        assert(run[0].state@ =~= run[0].state@.skip(0));
    } else {
        pruned_so_far(run, steps, k - 1);
        let before = run[k - 1].state@;
        assert(steps[k - 1] is Remove);
        assert(before[0] == before[0]);
        assert(run[k].state@ == before.remove(0));
        assert(run[k].state@ =~= run[0].state@.skip(k));
    }
}

/// A rotation deletes the oldest files, which are the first of the listing, in its order, and
/// exactly as many as are too many: every file deleted stands before every file kept. Files begun
/// at one moment have no order of age: of these the first by name goes first. Then the number of
/// files, with the one about to be opened, is within the limit, unless no compressed file is left
/// to delete.
pub proof fn rotation_deletes_the_oldest<H>(run: Seq<RotatingFile<H>>, steps: Seq<Rotation>)
    requires
        is_pruning_run(run, steps),
        steps.last() is Compress,
    ensures
        run.len() == excess(run[0]) + 1,
        forall|i: int|
            0 <= i < excess(run[0]) ==> ((#[trigger] steps[i]) matches Rotation::Remove(path)
                && path@ == run[0].state@[i]),
        run.last().state@ == run[0].state@.skip(excess(run[0]) as int),
        run[0].state.is_valid() ==> forall|i: int, j: int|
            0 <= i < excess(run[0]) && 0 <= j < run.last().state@.len() ==> path_lt(
                #[trigger] run[0].state@[i],
                #[trigger] run.last().state@[j],
            ),
        run.last() == (RotatingFile { state: run.last().state, ..run[0] }),
        run[0].limits.files matches Some(max_files) ==> run.last().files_counted() + 1 <= max_files
            || run.last().state@.len() == 0,
{
    let last = run.len() - 1;
    pruned_so_far(run, steps, last);
    assert forall|i: int| 0 <= i < last implies ((#[trigger] steps[i]) matches Rotation::Remove(
        path,
    ) && path@ == run[0].state@[i]) && next_removal(run[i]) is Some by {
        pruned_so_far(run, steps, i);
        assert(run[i] == run[i]);
    }
    if last > 0 {
        pruned_so_far(run, steps, last - 1);
        assert(steps[last - 1] is Remove);
    }
}

/// A rotation deletes nothing without a limit, nor where the listed files, the current one and the
/// next one are within it.
pub proof fn rotation_within_the_limit_deletes_nothing<H>(file: RotatingFile<H>, next: Rotation)
    requires
        is_next_after_sync(file, next),
        file.limits.files matches Some(max_files) ==> file.state@.len() + 2 <= max_files,
    ensures
        next is Compress,
{
}

/// Once the completed file is being compressed and the next one is open, the files counted are
/// within the limit. Where nothing else is being compressed, and the limit leaves room for the
/// completed file beside the next one, so are they together with the completed file.
pub proof fn rotation_keeps_the_limit<H>(
    pruned: RotatingFile<H>,
    handle: H,
    queued: RotatingFile<H>,
    step: Rotation,
    opened: RotatingFile<H>,
    max_files: usize,
)
    requires
        is_next_after_sync(pruned, Rotation::Compress),
        pruned.limits.files == Some(max_files),
        max_files > 0,
        rotation_started(pruned, handle, queued, step),
        rotation_step(step, queued, Ok(()), opened, Ok(Rotation::Done)),
    ensures
        opened.files_counted() <= max_files,
        max_files >= 2 && pruned.work@.len() == 0 ==> opened.state@.len() + opened.work@.len() + 1
            <= max_files,
        opened.current.bytes_written == 0,
{
}

/// No rotation deletes the current file, nor any other that is not compressed.
pub proof fn rotation_spares_the_current_file<H>(file: RotatingFile<H>)
    requires
        file.is_valid(),
        next_removal(file) is Some,
    ensures
        extension(next_removal(file)->0) == Some(gz()),
        next_removal(file)->0 != file.current.path@,
{
    current_file_is_not_listed(file);
    assert(file.state@.contains(file.state@[0]));
}

/// A step that fails ends the rotation and changes nothing: the current file stays the current
/// one, and no file is forgotten.
pub proof fn failed_step_changes_nothing<H>(
    step: Rotation,
    before: RotatingFile<H>,
    outcome: Result<(), io::Error>,
    after: RotatingFile<H>,
    error: RotateError,
)
    requires
        rotation_step(step, before, outcome, after, Err(error)),
    ensures
        after == before,
        outcome is Err,
{
}

} // verus!
