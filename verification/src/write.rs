//! Writing: a rotation where one is due, then the write itself.
use crate::errors::{cause_of, RotateError};
use crate::rotate::{rotation_opened, rotation_started, rotation_step, Rotation};
use crate::rotating_file::{Opening, RotatingFile};
use crate::time::Timestamp;
use std::io;
use vstd::prelude::*;

verus! {

/// What a write has to do next.
pub enum Writing {
    /// Take this step of a rotation. Where it starts a compression, see [`Writing::started`];
    /// where it creates a file, see [`Writing::opened`].
    Rotate(Rotation),
    /// Write to the current file, and pass the outcome to [`RotatingFile::write`].
    Write,
}

/// How a write proceeds from a step and its outcome, to the next step or the error.
pub open spec fn writing_step<H>(
    step: Writing,
    before: RotatingFile<H>,
    outcome: Result<(), io::Error>,
    after: RotatingFile<H>,
    next: Result<Writing, io::Error>,
) -> bool {
    match step {
        Writing::Rotate(rotation) => match next {
            Ok(Writing::Write) => rotation_step(
                rotation,
                before,
                outcome,
                after,
                Ok(Rotation::Done),
            ),
            Ok(Writing::Rotate(following)) => {
                &&& following !is Done
                &&& rotation_step(rotation, before, outcome, after, Ok(following))
            },
            Err(error) => exists|failure: RotateError| #[trigger]
                rotation_step(rotation, before, outcome, after, Err(failure)) && error == cause_of(
                    failure,
                ),
        },
        Writing::Write => {
            &&& after == before
            &&& next == Ok::<Writing, io::Error>(Writing::Write)
        },
    }
}

impl Writing {
    /// A rotation under way is one of that file.
    pub open spec fn is_valid<H>(self, file: RotatingFile<H>) -> bool {
        self matches Writing::Rotate(rotation) ==> rotation.is_valid(file)
    }

    /// The first step of writing `bytes_to_write` bytes at `time`.
    pub fn start_at<H>(file: &RotatingFile<H>, bytes_to_write: usize, time: Timestamp) -> (res:
        Writing)
        ensures
            res == (if file.too_big(bytes_to_write as int) || file.too_old(time) {
                Writing::Rotate(Rotation::Flush)
            } else {
                Writing::Write
            }),
    {
        if file.should_rotate(bytes_to_write, time) {
            Writing::Rotate(Rotation::start())
        } else {
            Writing::Write
        }
    }

    /// The first step of writing `bytes_to_write` bytes now.
    pub fn start<H>(file: &RotatingFile<H>, bytes_to_write: usize) -> (res: Writing)
        ensures
            exists|time: Timestamp| #[trigger]
                time.is_valid() && res == (if file.too_big(bytes_to_write as int)
                    || file.too_old(time) {
                    Writing::Rotate(Rotation::Flush)
                } else {
                    Writing::Write
                }),
    {
        let time = Timestamp::now();
        assert(time.is_valid());
        Writing::start_at(file, bytes_to_write, time)
    }

    /// Goes on, now that the step of the rotation has been tried with this outcome.
    pub fn resume<H>(self, file: &mut RotatingFile<H>, outcome: Result<(), io::Error>) -> (next:
        Result<Writing, io::Error>)
        requires
            old(file).is_valid(),
            self.is_valid(*old(file)),
        ensures
            final(file).is_valid(),
            writing_step(self, *old(file), outcome, *final(file), next),
            next matches Ok(writing) ==> writing.is_valid(*final(file)),
    {
        match self {
            Writing::Rotate(rotation) => match rotation.resume(file, outcome) {
                Ok(Rotation::Done) => Ok(Writing::Write),
                Ok(rotation) => Ok(Writing::Rotate(rotation)),
                Err(error) => Err(io::Error::from(error)),
            },
            Writing::Write => Ok(Writing::Write),
        }
    }

    /// Goes on, now that the compression of the current file has been started.
    pub fn started<H>(self, file: &mut RotatingFile<H>, handle: H) -> (next: Writing)
        requires
            self == Writing::Rotate(Rotation::Compress),
            old(file).is_valid(),
            old(file).work.next() < u64::MAX,
        ensures
            final(file).is_valid(),
            next matches Writing::Rotate(rotation) && rotation_started(
                *old(file),
                handle,
                *final(file),
                rotation,
            ),
            next.is_valid(*final(file)),
    {
        Writing::Rotate(Rotation::Compress.started(file, handle))
    }

    /// Goes on, now that the compression of the current file has been started: the next file is
    /// begun at this moment.
    pub fn started_at<H>(self, file: &mut RotatingFile<H>, handle: H, began: Timestamp) -> (next:
        Writing)
        requires
            self == Writing::Rotate(Rotation::Compress),
            began.is_valid(),
            old(file).is_valid(),
            old(file).work.next() < u64::MAX,
        ensures
            final(file).is_valid(),
            next matches Writing::Rotate(rotation) && rotation_started(
                *old(file),
                handle,
                *final(file),
                rotation,
            ) && rotation->Open_0.began == began,
            next.is_valid(*final(file)),
    {
        Writing::Rotate(Rotation::Compress.started_at(file, handle, began))
    }

    /// Goes on, now that the next file has been tried to create with this outcome.
    pub fn opened<H>(self, file: &mut RotatingFile<H>, opening: Opening) -> (next: Result<
        Writing,
        io::Error,
    >)
        requires
            self matches Writing::Rotate(rotation) && rotation is Open,
            old(file).is_valid(),
            self.is_valid(*old(file)),
        ensures
            final(file).is_valid(),
            (match next {
                Ok(Writing::Write) => rotation_opened(
                    self->Rotate_0,
                    *old(file),
                    opening,
                    *final(file),
                    Ok(Rotation::Done),
                ),
                Ok(Writing::Rotate(following)) => following !is Done && rotation_opened(
                    self->Rotate_0,
                    *old(file),
                    opening,
                    *final(file),
                    Ok(following),
                ),
                Err(error) => exists|failure: RotateError| #[trigger]
                    rotation_opened(
                        self->Rotate_0,
                        *old(file),
                        opening,
                        *final(file),
                        Err(failure),
                    ) && error == cause_of(failure),
            }),
            next matches Ok(writing) ==> writing.is_valid(*final(file)),
    {
        match self {
            Writing::Rotate(rotation) => match rotation.opened(file, opening) {
                Ok(Rotation::Done) => Ok(Writing::Write),
                Ok(following) => Ok(Writing::Rotate(following)),
                Err(failure) => Err(io::Error::from(failure)),
            },
            Writing::Write => Ok(Writing::Write),
        }
    }
}

/// A rotation that is due is completed before anything is written: the write then finds a file
/// that has just been opened.
pub proof fn rotated_write_starts_a_file<H>(
    step: Rotation,
    before: RotatingFile<H>,
    outcome: Result<(), io::Error>,
    after: RotatingFile<H>,
)
    requires
        step !is Done,
        writing_step(Writing::Rotate(step), before, outcome, after, Ok(Writing::Write)),
    ensures
        step matches Rotation::Open(file) && after.current == file.as_current(),
{
}

/// A write keeps the current file within the size limit, unless it is the first write to that file
/// and exceeds the limit by itself: either no rotation was due, or it has just been completed.
pub proof fn written_file_keeps_to_size<H>(
    file: RotatingFile<H>,
    bytes_to_write: int,
    written: int,
    max_size: usize,
)
    requires
        file.limits.size == Some(max_size),
        !file.too_big(bytes_to_write) || file.current.bytes_written == 0,
        0 <= written <= bytes_to_write,
    ensures
        file.current.bytes_written + written <= max_size || (file.current.bytes_written == 0
            && bytes_to_write > max_size),
{
}

} // verus!
