//! The rotating file: what it knows of its files, and when it has to move on to the next.
use crate::calendar::{FIRST_FOUR_DIGIT_SECOND, LAST_FOUR_DIGIT_SECOND};
use crate::errors::NewFileError;
use crate::limits::Limits;
use crate::order::{path_lt_asymmetric, path_lt_irreflexive, Parts};
use crate::path::{extension, LogPath};
use crate::state::State;
use crate::storage::{
    compressed_path, files_are_listed_by_age, gz, log, new_file_is_uncompressed, NewFile, Storage,
};
use crate::time::Timestamp;
use crate::work::{Work, WorkId};
use std::io;
use vstd::prelude::*;

verus! {

/// The log file that is being written to.
pub struct Current {
    pub path: LogPath,
    pub began: Timestamp,
    pub number: u64,
    pub bytes_written: usize,
}

impl Current {
    /// The file as it was when it was opened.
    pub open spec fn file(self) -> NewFile {
        NewFile { path: self.path, began: self.began, number: self.number }
    }
}

impl NewFile {
    /// The file once it has been created: it is the current file, and empty.
    pub open spec fn as_current(self) -> Current {
        Current { path: self.path, began: self.began, number: self.number, bytes_written: 0 }
    }

    /// What becomes of the attempt to create the file: it is the current file, and empty.
    pub fn opened(self, outcome: Result<(), io::Error>) -> (res: Result<Current, NewFileError>)
        ensures
            (match outcome {
                Ok(_) => res == Ok::<Current, NewFileError>(self.as_current()),
                Err(error) => res == Err::<Current, NewFileError>(
                    NewFileError::Open(self.path, error),
                ),
            }),
    {
        match outcome {
            Ok(_) => Ok(
                Current {
                    path: self.path,
                    began: self.began,
                    number: self.number,
                    bytes_written: 0,
                },
            ),
            Err(error) => Err(NewFileError::Open(self.path, error)),
        }
    }
}

/// How the attempt to create a log file went.
pub enum Opening {
    /// The file has been created, and it has no compressed form.
    Created,
    /// A file of that name exists already.
    Exists(io::Error),
    /// A file exists already that has the name of its compressed form.
    CompressedExists(io::Error),
    /// It failed otherwise.
    Failed(io::Error),
}

/// What an attempt to create a log file comes to.
pub enum Attempt {
    /// The name is taken: another has to be tried.
    Taken(io::Error),
    /// The attempt has succeeded, or failed for good.
    Tried(Result<(), io::Error>),
}

impl Opening {
    /// What the attempt comes to. A name is taken when the file exists or its compressed form does.
    pub open spec fn attempt(self) -> Attempt {
        match self {
            Opening::Created => Attempt::Tried(Ok(())),
            Opening::Exists(error) => Attempt::Taken(error),
            Opening::CompressedExists(error) => Attempt::Taken(error),
            Opening::Failed(error) => Attempt::Tried(Err(error)),
        }
    }

    /// What the attempt comes to. A name is taken when the file exists or its compressed form does.
    pub fn judge(self) -> (res: Attempt)
        ensures
            res == self.attempt(),
    {
        match self {
            Opening::Created => Attempt::Tried(Ok(())),
            Opening::Exists(error) => Attempt::Taken(error),
            Opening::CompressedExists(error) => Attempt::Taken(error),
            Opening::Failed(error) => Attempt::Tried(Err(error)),
        }
    }
}

/// A file that is rotated. `H` is the handle of a background compression.
pub struct RotatingFile<H> {
    pub storage: Storage,
    pub limits: Limits,
    pub current: Current,
    pub state: State,
    pub work: Work<H>,
}

/// A write to the current file is noted: it has grown by what was written.
pub open spec fn is_written<H>(
    before: RotatingFile<H>,
    outcome: Result<usize, io::Error>,
    after: RotatingFile<H>,
) -> bool {
    match outcome {
        Ok(written) => {
            &&& after == (RotatingFile { current: after.current, ..before })
            &&& after.current == (Current {
                bytes_written: after.current.bytes_written,
                ..before.current
            })
            &&& after.current.bytes_written == before.current.bytes_written + written
        },
        Err(_) => after == before,
    }
}

impl<H> RotatingFile<H> {
    /// The current file is named after the moment it was begun, and every file in the listing is a
    /// compressed one.
    pub open spec fn is_valid(&self) -> bool {
        &&& self.limits.is_valid()
        &&& self.state.is_valid()
        &&& self.work.is_valid()
        &&& self.current.file().is_for(self.storage)
        &&& forall|path: Parts| #[trigger]
            self.state@.contains(path) ==> extension(path) == Some(gz())
    }

    /// The files that the limit on their number counts: those listed and the current one. A file
    /// that is being compressed counts when its compression is recorded.
    pub open spec fn files_counted(&self) -> nat {
        self.state@.len() + 1
    }

    /// Whether the current file and `bytes_to_write` more bytes exceed the size limit.
    pub open spec fn too_big(&self, bytes_to_write: int) -> bool {
        match self.limits.size {
            Some(max_size) => self.current.bytes_written + bytes_to_write > max_size,
            None => false,
        }
    }

    /// Whether the current file has reached the age limit.
    pub open spec fn too_old(&self, time: Timestamp) -> bool {
        match self.limits.age {
            Some(max_age) => time.total_nanos() - self.current.began.total_nanos()
                >= max_age.total_nanos(),
            None => false,
        }
    }

    /// Whether the current file has to be rotated before `bytes_to_write` bytes are written at
    /// `time`.
    pub fn should_rotate(&self, bytes_to_write: usize, time: Timestamp) -> (res: bool)
        ensures
            res == (self.too_big(bytes_to_write as int) || self.too_old(time)),
    {
        let too_big = match self.limits.size {
            Some(max_size) => bytes_to_write > max_size || self.current.bytes_written > max_size
                - bytes_to_write,
            None => false,
        };
        let too_old = match self.limits.age {
            Some(max_age) => time.is_past(self.current.began, max_age),
            None => false,
        };
        too_big || too_old
    }

    /// Takes note of a write to the current file, and passes its outcome on.
    pub fn write(&mut self, outcome: Result<usize, io::Error>) -> (res: Result<usize, io::Error>)
        requires
            outcome matches Ok(written) ==> old(self).current.bytes_written + written <= usize::MAX,
        ensures
            res == outcome,
            is_written(*old(self), outcome, *final(self)),
            old(self).is_valid() ==> final(self).is_valid(),
    {
        match outcome {
            Ok(written) => {
                self.current.bytes_written = self.current.bytes_written + written;
                assert(self.current.file() == old(self).current.file());
                Ok(written)
            },
            Err(error) => Err(error),
        }
    }

    /// Records a compression of the current file, or of one found on disk, that has been started.
    pub fn enqueue_compression(&mut self, handle: H) -> (id: WorkId)
        requires
            old(self).is_valid(),
            old(self).work.next() < u64::MAX,
        ensures
            final(self).is_valid(),
            id == WorkId(old(self).work.next()),
            final(self).work@ == old(self).work@.push((id, handle)),
            final(self).work.next() == old(self).work.next() + 1,
            *final(self) == (RotatingFile { work: final(self).work, ..*old(self) }),
    {
        self.work.enqueue_compression(handle)
    }
}

/// The current file is an uncompressed one, so the listing does not hold it.
pub proof fn current_file_is_not_listed<H>(file: RotatingFile<H>)
    requires
        file.is_valid(),
    ensures
        extension(file.current.path@) == Some(log()),
        !file.state@.contains(file.current.path@),
{
    new_file_is_uncompressed(file.storage, file.current.file());
    assert(log().len() == 3 && gz().len() == 2);
}

/// The listing is by age: of two files compressed from log files of the storage, the one begun
/// earlier, by a microsecond or more, stands before the other. This holds of years with four
/// digits.
pub proof fn listing_is_by_age<H>(
    file: RotatingFile<H>,
    older: NewFile,
    newer: NewFile,
    i: int,
    j: int,
)
    requires
        file.is_valid(),
        older.is_for(file.storage),
        newer.is_for(file.storage),
        FIRST_FOUR_DIGIT_SECOND <= older.began.secs <= LAST_FOUR_DIGIT_SECOND,
        FIRST_FOUR_DIGIT_SECOND <= newer.began.secs <= LAST_FOUR_DIGIT_SECOND,
        older.began.total_micros() < newer.began.total_micros(),
        0 <= i < file.state@.len(),
        0 <= j < file.state@.len(),
        file.state@[i] == compressed_path(older.path@),
        file.state@[j] == compressed_path(newer.path@),
    ensures
        i < j,
{
    files_are_listed_by_age(file.storage, older, newer);
    if i == j {
        path_lt_irreflexive(file.state@[i]);
    } else if j < i {
        path_lt_asymmetric(file.state@[i], file.state@[j]);
    }
}

/// A file that has just been opened takes any write that the size limit allows at all.
pub proof fn fresh_file_fits<H>(file: RotatingFile<H>, bytes_to_write: int)
    requires
        file.current.bytes_written == 0,
    ensures
        file.too_big(bytes_to_write) <==> (file.limits.size matches Some(max_size) && bytes_to_write
            > max_size),
{
}

} // verus!
