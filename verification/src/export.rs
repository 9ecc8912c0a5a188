//! Export: all log data so far, gathered into one file.
//!
//! An export is a sequence of steps like a rotation, with which it begins: the most recent log
//! data are to be part of it.
use crate::compress::{is_recorded, Compression};
use crate::errors::{CompressError, ExportError, RotateError};
use crate::path::LogPath;
use crate::rotate::{rotation_name_taken, rotation_started, rotation_step, Rotation};
use crate::rotating_file::{Attempt, Opening, RotatingFile};
use crate::state::paths_of;
use crate::storage::compressed_path;
use crate::time::Timestamp;
use crate::work::WorkId;
use std::io;
use vstd::prelude::*;

verus! {

/// What an export has to do next. `H` is the handle of a background compression.
pub enum ExportStep<H> {
    /// Take this step of a rotation. Where it starts a compression, see [`Export::started`]; where
    /// it creates a file, see [`Export::opened`].
    Rotate(Rotation),
    /// Wait for this compression to end.
    Join(H),
    /// Create the output file, which must not exist yet.
    CreateOutput,
    /// Open the next input file for reading.
    OpenInput,
    /// Append the contents of the next input file to the output file.
    Copy,
    /// Flush the output file.
    Flush,
    /// Sync the output file to disk.
    Sync,
    /// Nothing: the export is complete.
    Done,
}

/// An export under way.
pub struct Export<H> {
    /// The output file.
    pub dest: LogPath,
    pub step: ExportStep<H>,
    /// The compressions that are yet to be waited for, the next one last.
    pub waiting: Vec<H>,
    /// The input files.
    pub files: Vec<LogPath>,
    /// How many of the input files have been copied.
    pub files_copied: usize,
    /// How many bytes have been copied.
    pub bytes_copied: u64,
}

/// The handles of running compressions.
pub open spec fn handles_of<H>(work: Seq<(WorkId, H)>) -> Seq<H> {
    work.map_values(|entry: (WorkId, H)| entry.1)
}

/// The step that waits for the next compression, or goes on if there is none.
pub open spec fn is_waiting<H>(export: Export<H>, handles: Seq<H>) -> bool {
    if handles.len() == 0 {
        &&& export.step is CreateOutput
        &&& export.waiting@ == handles
    } else {
        &&& export.step == ExportStep::Join(handles.last())
        &&& export.waiting@ == handles.drop_last()
    }
}

/// The step that copies the next input file, or goes on if there is none.
pub open spec fn next_input<H>(files: nat, files_copied: int) -> ExportStep<H> {
    if files_copied < files {
        ExportStep::OpenInput
    } else {
        ExportStep::Flush
    }
}

/// How an export proceeds from a step of its rotation. When the rotation is complete, all running
/// compressions, the one just started among them, are taken over to be waited for.
pub open spec fn export_rotation_step<H>(
    export: Export<H>,
    before: RotatingFile<H>,
    outcome: Result<(), io::Error>,
    after: RotatingFile<H>,
    next: Result<Export<H>, ExportError>,
) -> bool {
    let rotation = export.step->Rotate_0;
    match next {
        Ok(next) => if next.step is Rotate {
            &&& next == (Export { step: next.step, ..export })
            &&& next.step->Rotate_0 !is Done
            &&& rotation_step(rotation, before, outcome, after, Ok(next.step->Rotate_0))
        } else {
            &&& next == (Export { step: next.step, waiting: next.waiting, ..export })
            &&& is_waiting(next, handles_of(before.work@))
            &&& after.work@.len() == 0
            &&& after.work.next() == before.work.next()
            &&& exists|rotated: RotatingFile<H>| #[trigger]
                rotation_step(rotation, before, outcome, rotated, Ok(Rotation::Done)) && after == (
                RotatingFile { work: after.work, ..rotated })
        },
        Err(error) => exists|failure: RotateError| #[trigger]
            rotation_step(rotation, before, outcome, after, Err(failure)) && error
                == ExportError::Rotate(failure),
    }
}

/// How an export proceeds from the attempt to create the next log file: with the next number where
/// the name is taken.
pub open spec fn export_opened<H>(
    export: Export<H>,
    before: RotatingFile<H>,
    opening: Opening,
    after: RotatingFile<H>,
    next: Result<Export<H>, ExportError>,
) -> bool {
    let rotation = export.step->Rotate_0;
    match opening.attempt() {
        Attempt::Taken(error) => {
            &&& after == before
            &&& match next {
                Ok(next) => {
                    &&& next == (Export { step: next.step, ..export })
                    &&& next.step matches ExportStep::Rotate(following)
                    &&& rotation_name_taken(rotation, before.storage, error, Ok(following))
                },
                Err(cause) => exists|failure: RotateError| #[trigger]
                    rotation_name_taken(rotation, before.storage, error, Err(failure)) && cause
                        == ExportError::Rotate(failure),
            }
        },
        Attempt::Tried(outcome) => export_rotation_step(export, before, outcome, after, next),
    }
}

/// How an export proceeds once the compression being waited for has ended.
pub open spec fn join_step<H>(
    before: Export<H>,
    result: Result<(), CompressError>,
    next: Result<Export<H>, ExportError>,
) -> bool {
    match result {
        Ok(_) => {
            &&& next matches Ok(after)
            &&& is_waiting(after, before.waiting@)
            &&& after == (Export { step: after.step, waiting: after.waiting, ..before })
        },
        Err(error) => next == Err::<Export<H>, ExportError>(ExportError::Compression(error)),
    }
}

/// How an export proceeds from the creation of the output file on, with copying left aside.
pub open spec fn export_step<H>(
    before: Export<H>,
    file: RotatingFile<H>,
    outcome: Result<(), io::Error>,
    next: Result<Export<H>, ExportError>,
) -> bool {
    match (before.step, outcome) {
        (ExportStep::CreateOutput, Ok(_)) => {
            &&& next matches Ok(after)
            &&& after == (Export {
                step: next_input(file.state@.len(), 0),
                files: after.files,
                files_copied: 0,
                bytes_copied: 0,
                ..before
            })
            &&& paths_of(after.files@) == file.state@
        },
        (ExportStep::CreateOutput, Err(error)) => next == Err::<Export<H>, ExportError>(
            ExportError::CreateOutput(before.dest, error),
        ),
        (ExportStep::OpenInput, Ok(_)) => next == Ok::<Export<H>, ExportError>(
            Export { step: ExportStep::Copy, ..before },
        ),
        (ExportStep::OpenInput, Err(error)) => {
            &&& next matches Err(ExportError::OpenInput(path, cause))
            &&& path@ == before.files@[before.files_copied as int]@
            &&& cause == error
        },
        (ExportStep::Flush, Ok(_)) => next == Ok::<Export<H>, ExportError>(
            Export { step: ExportStep::Sync, ..before },
        ),
        (ExportStep::Flush, Err(error)) => next == Err::<Export<H>, ExportError>(
            ExportError::Flush(before.dest, error),
        ),
        (ExportStep::Sync, Ok(_)) => next == Ok::<Export<H>, ExportError>(
            Export { step: ExportStep::Done, ..before },
        ),
        (ExportStep::Sync, Err(error)) => next == Err::<Export<H>, ExportError>(
            ExportError::Sync(before.dest, error),
        ),
        _ => next == Ok::<Export<H>, ExportError>(before),
    }
}

/// How an export proceeds from copying an input file.
pub open spec fn copy_step<H>(
    before: Export<H>,
    outcome: Result<u64, io::Error>,
    next: Result<Export<H>, ExportError>,
) -> bool {
    match outcome {
        Ok(bytes) => {
            &&& next matches Ok(after)
            &&& after == (Export {
                step: next_input(before.files@.len(), before.files_copied + 1),
                files_copied: after.files_copied,
                bytes_copied: after.bytes_copied,
                ..before
            })
            &&& after.files_copied == before.files_copied + 1
            &&& after.bytes_copied == before.bytes_copied + bytes
        },
        Err(error) => {
            &&& next matches Err(ExportError::Copy(from, to, cause))
            &&& from@ == before.files@[before.files_copied as int]@
            &&& to == before.dest
            &&& cause == error
        },
    }
}

impl<H> RotatingFile<H> {
    /// An export to this file.
    pub fn export(&self, dest: LogPath) -> (res: Export<H>)
        ensures
            res.is_valid(),
            res.dest == dest,
            res.step == ExportStep::<H>::Rotate(Rotation::Flush),
            res.waiting@.len() == 0,
            res.files@.len() == 0,
            res.files_copied == 0,
            res.bytes_copied == 0,
    {
        Export {
            dest,
            step: ExportStep::Rotate(Rotation::start()),
            waiting: Vec::new(),
            files: Vec::new(),
            files_copied: 0,
            bytes_copied: 0,
        }
    }
}

impl<H> Export<H> {
    /// While files are being copied there is a next one.
    pub open spec fn is_valid(self) -> bool {
        self.step is OpenInput || self.step is Copy ==> self.files_copied < self.files@.len()
    }

    /// Waits for the next of these compressions, or goes on if there is none.
    fn wait(self, handles: Vec<H>) -> (res: Export<H>)
        ensures
            res.is_valid(),
            is_waiting(res, handles@),
            res == (Export { step: res.step, waiting: res.waiting, ..self }),
    {
        let mut waiting = handles;
        let step = match waiting.pop() {
            Some(handle) => ExportStep::Join(handle),
            None => ExportStep::CreateOutput,
        };
        Export {
            dest: self.dest,
            step,
            waiting,
            files: self.files,
            files_copied: self.files_copied,
            bytes_copied: self.bytes_copied,
        }
    }

    /// Goes on, now that the step of its rotation has been tried with this outcome.
    pub fn rotated(self, file: &mut RotatingFile<H>, outcome: Result<(), io::Error>) -> (next:
        Result<Export<H>, ExportError>)
        requires
            old(file).is_valid(),
            self.step is Rotate,
            self.step->Rotate_0.is_valid(*old(file)),
        ensures
            final(file).is_valid(),
            export_rotation_step(self, *old(file), outcome, *final(file), next),
            next matches Ok(export) ==> export.is_valid() && (export.step is Rotate
                ==> export.step->Rotate_0.is_valid(*final(file))),
    {
        let Export { dest, step, waiting, files, files_copied, bytes_copied } = self;
        let rotation = match step {
            ExportStep::Rotate(rotation) => rotation,
            _ => {
                assert(false);
                Rotation::Done
            },
        };
        match rotation.resume(file, outcome) {
            Ok(Rotation::Done) => {
                let ghost rotated = *file;
                let handles = file.work.drain_handles();
                assert(*file == (RotatingFile { work: file.work, ..rotated }));
                let step = ExportStep::CreateOutput;
                let export = Export { dest, step, waiting, files, files_copied, bytes_copied };
                Ok(export.wait(handles))
            },
            Ok(rotation) => {
                let step = ExportStep::Rotate(rotation);
                Ok(Export { dest, step, waiting, files, files_copied, bytes_copied })
            },
            Err(error) => Err(ExportError::from(error)),
        }
    }

    /// Goes on, now that the compression of the current file has been started.
    pub fn started(self, file: &mut RotatingFile<H>, handle: H) -> (next: Export<H>)
        requires
            self.step == ExportStep::<H>::Rotate(Rotation::Compress),
            old(file).is_valid(),
            old(file).work.next() < u64::MAX,
        ensures
            final(file).is_valid(),
            next.is_valid(),
            next == (Export { step: next.step, ..self }),
            next.step is Rotate,
            next.step->Rotate_0.is_valid(*final(file)),
            rotation_started(*old(file), handle, *final(file), next.step->Rotate_0),
    {
        self.started_at(file, handle, Timestamp::now())
    }

    /// Goes on, now that the compression of the current file has been started: the next file is
    /// begun at this moment.
    pub fn started_at(self, file: &mut RotatingFile<H>, handle: H, began: Timestamp) -> (next:
        Export<H>)
        requires
            self.step == ExportStep::<H>::Rotate(Rotation::Compress),
            began.is_valid(),
            old(file).is_valid(),
            old(file).work.next() < u64::MAX,
        ensures
            final(file).is_valid(),
            next.is_valid(),
            next == (Export { step: next.step, ..self }),
            next.step is Rotate,
            next.step->Rotate_0.is_valid(*final(file)),
            rotation_started(*old(file), handle, *final(file), next.step->Rotate_0),
            next.step->Rotate_0->Open_0.began == began,
    {
        let Export { dest, step: _, waiting, files, files_copied, bytes_copied } = self;
        let step = ExportStep::Rotate(Rotation::Compress.started_at(file, handle, began));
        Export { dest, step, waiting, files, files_copied, bytes_copied }
    }

    /// Goes on, now that the next log file has been tried to create with this outcome.
    pub fn opened(self, file: &mut RotatingFile<H>, opening: Opening) -> (next: Result<
        Export<H>,
        ExportError,
    >)
        requires
            old(file).is_valid(),
            self.step matches ExportStep::Rotate(rotation) && rotation is Open
                && rotation.is_valid(*old(file)),
        ensures
            final(file).is_valid(),
            export_opened(self, *old(file), opening, *final(file), next),
            next matches Ok(export) ==> export.is_valid() && (export.step is Rotate
                ==> export.step->Rotate_0.is_valid(*final(file))),
    {
        match opening.judge() {
            Attempt::Taken(error) => {
                let Export { dest, step, waiting, files, files_copied, bytes_copied } = self;
                let rotation = match step {
                    ExportStep::Rotate(rotation) => rotation,
                    _ => {
                        assert(false);
                        Rotation::Done
                    },
                };
                match rotation.name_taken(file, error) {
                    Ok(following) => {
                        let step = ExportStep::Rotate(following);
                        Ok(Export { dest, step, waiting, files, files_copied, bytes_copied })
                    },
                    Err(failure) => Err(ExportError::from(failure)),
                }
            },
            Attempt::Tried(outcome) => self.rotated(file, outcome),
        }
    }

    /// Goes on, now that the compression being waited for has ended with this result.
    pub fn joined(self, result: Result<(), CompressError>) -> (next: Result<
        Export<H>,
        ExportError,
    >)
        ensures
            join_step(self, result, next),
            next matches Ok(after) ==> after.is_valid(),
    {
        match result {
            Ok(_) => {
                let Export { dest, step, waiting: handles, files, files_copied, bytes_copied } =
                    self;
                let waiting = Vec::new();
                let export = Export { dest, step, waiting, files, files_copied, bytes_copied };
                Ok(export.wait(handles))
            },
            Err(error) => Err(ExportError::from(error)),
        }
    }

    /// Goes on, now that the step has been tried with this outcome. The input files are those
    /// listed when the output file has been created.
    pub fn resume(self, file: &RotatingFile<H>, outcome: Result<(), io::Error>) -> (next: Result<
        Export<H>,
        ExportError,
    >)
        requires
            self.is_valid(),
        ensures
            export_step(self, *file, outcome, next),
            next matches Ok(export) ==> export.is_valid(),
    {
        let Export { dest, step, waiting, files, files_copied, bytes_copied } = self;
        match step {
            ExportStep::CreateOutput => match outcome {
                Ok(_) => {
                    let files = file.state.files();
                    assert(paths_of(files@).len() == files@.len());
                    let step = if files.len() > 0 {
                        ExportStep::OpenInput
                    } else {
                        ExportStep::Flush
                    };
                    Ok(Export { dest, step, waiting, files, files_copied: 0, bytes_copied: 0 })
                },
                Err(error) => Err(ExportError::CreateOutput(dest, error)),
            },
            ExportStep::OpenInput => match outcome {
                Ok(_) => {
                    let step = ExportStep::Copy;
                    Ok(Export { dest, step, waiting, files, files_copied, bytes_copied })
                },
                Err(error) => Err(ExportError::OpenInput(files[files_copied].clone(), error)),
            },
            ExportStep::Flush => match outcome {
                Ok(_) => {
                    let step = ExportStep::Sync;
                    Ok(Export { dest, step, waiting, files, files_copied, bytes_copied })
                },
                Err(error) => Err(ExportError::Flush(dest, error)),
            },
            ExportStep::Sync => match outcome {
                Ok(_) => {
                    let step = ExportStep::Done;
                    Ok(Export { dest, step, waiting, files, files_copied, bytes_copied })
                },
                Err(error) => Err(ExportError::Sync(dest, error)),
            },
            step => Ok(Export { dest, step, waiting, files, files_copied, bytes_copied }),
        }
    }

    /// Goes on, now that the next input file has been copied with this outcome: so many bytes.
    pub fn copied(self, outcome: Result<u64, io::Error>) -> (next: Result<Export<H>, ExportError>)
        requires
            self.is_valid(),
            self.step is Copy,
            outcome matches Ok(bytes) ==> self.bytes_copied + bytes <= u64::MAX,
        ensures
            copy_step(self, outcome, next),
            next matches Ok(export) ==> export.is_valid(),
    {
        let Export { dest, step: _, waiting, files, files_copied, bytes_copied } = self;
        match outcome {
            Ok(bytes) => {
                let files_len: usize = files.len();
                let files_copied: usize = files_copied + 1;
                let bytes_copied: u64 = bytes_copied + bytes;
                let step = if files_copied < files_len {
                    ExportStep::OpenInput
                } else {
                    ExportStep::Flush
                };
                Ok(Export { dest, step, waiting, files, files_copied, bytes_copied })
            },
            Err(error) => Err(ExportError::Copy(files[files_copied].clone(), dest, error)),
        }
    }
}

/// The sum of some numbers of bytes.
pub open spec fn total(bytes: Seq<u64>) -> int
    decreases bytes.len(),
{
    if bytes.len() == 0 {
        0
    } else {
        total(bytes.drop_last()) + bytes.last()
    }
}

/// A run of an export that has created its output file and copies its input files, one after the
/// other, `bytes[i]` bytes of file `i`.
pub open spec fn is_copying_run<H>(run: Seq<Export<H>>, bytes: Seq<u64>) -> bool {
    &&& run.len() == bytes.len() + 1
    &&& run[0].files_copied == 0
    &&& run[0].bytes_copied == 0
    &&& run[0].step == next_input::<H>(run[0].files@.len(), 0)
    &&& forall|i: int|
        #![trigger run[i]]
        0 <= i < bytes.len() ==> run[i].step is OpenInput && copy_step(
            Export { step: ExportStep::Copy, ..run[i] },
            Ok(bytes[i]),
            Ok(run[i + 1]),
        )
}

proof fn total_of_prefix(bytes: Seq<u64>, k: int)
    requires
        0 <= k < bytes.len(),
    ensures
        total(bytes.take(k + 1)) == total(bytes.take(k)) + bytes[k],
{
    assert(bytes.take(k + 1).drop_last() =~= bytes.take(k));
}

/// What has been copied when `k` files are done.
proof fn copied_so_far<H>(run: Seq<Export<H>>, bytes: Seq<u64>, k: int)
    requires
        is_copying_run(run, bytes),
        0 <= k < run.len(),
    ensures
        k <= run[0].files@.len(),
        run[k].files == run[0].files,
        run[k].dest == run[0].dest,
        run[k].files_copied == k,
        run[k].bytes_copied == total(bytes.take(k)),
        run[k].step == next_input::<H>(run[0].files@.len(), k),
    decreases k,
{
    if k == 0 {
        assert(bytes.take(0).len() == 0);
    } else {
        copied_so_far(run, bytes, k - 1);
        total_of_prefix(bytes, k - 1);
        assert(run[k - 1].step is OpenInput);
    }
}

/// An export copies the listed files in the order of the listing, each of them once, and flushes
/// the output when it has copied all of them; the number of bytes it reports is the sum of what
/// was copied.
pub proof fn export_copies_the_listing<H>(run: Seq<Export<H>>, bytes: Seq<u64>)
    requires
        is_copying_run(run, bytes),
        run.last().step is Flush,
    ensures
        bytes.len() == run[0].files@.len(),
        forall|i: int|
            0 <= i < bytes.len() ==> (#[trigger] run[i]).step is OpenInput && run[i].files_copied
                == i && run[i].files == run[0].files,
        run.last().bytes_copied == total(bytes),
{
    let last = run.len() - 1;
    copied_so_far(run, bytes, last);
    assert(bytes.take(last) =~= bytes);
    assert forall|i: int| 0 <= i < bytes.len() implies (#[trigger] run[i]).step is OpenInput
        && run[i].files_copied == i && run[i].files == run[0].files by {
        copied_so_far(run, bytes, i);
    }
    if last > 0 {
        copied_so_far(run, bytes, last - 1);
    }
}

/// A log file whose compression is recorded before the output file is created is part of the
/// export, under its new name.
pub proof fn recorded_file_is_exported<H>(
    compression: Compression,
    id: WorkId,
    before: RotatingFile<H>,
    file: RotatingFile<H>,
    export: Export<H>,
    next: Export<H>,
)
    requires
        compression.is_valid(),
        is_recorded(compression, id, before, file),
        export.step is CreateOutput,
        export_step(export, file, Ok(()), Ok(next)),
    ensures
        paths_of(next.files@).contains(compressed_path(compression.in_path@)),
{
    assert(file.state@.contains(compression.out_path@));
}

/// The compression that the rotation of an export has started is among those waited for.
pub proof fn export_waits_for_its_own<H>(
    before: RotatingFile<H>,
    handle: H,
    started: RotatingFile<H>,
    export: Export<H>,
    outcome: Result<(), io::Error>,
    after: RotatingFile<H>,
    next: Export<H>,
)
    requires
        export.step is Rotate,
        rotation_started(before, handle, started, export.step->Rotate_0),
        export_rotation_step(export, started, outcome, after, Ok(next)),
        next.step !is Rotate,
    ensures
        is_waiting(next, handles_of(before.work@).push(handle)),
        next.step == ExportStep::Join(handle),
{
    assert(handles_of(started.work@) =~= handles_of(before.work@).push(handle));
    assert(handles_of(before.work@).push(handle).last() == handle);
}

/// Every compression that was running when the rotation of an export was completed is waited for
/// before the output file is created.
pub proof fn export_waits_for_all<H>(run: Seq<Export<H>>, handles: Seq<H>)
    requires
        run.len() > 0,
        is_waiting(run[0], handles),
        forall|i: int|
            #![trigger run[i]]
            0 <= i < run.len() - 1 ==> run[i].step is Join && join_step(
                run[i],
                Ok(()),
                Ok(run[i + 1]),
            ),
        run.last().step is CreateOutput,
    ensures
        run.len() == handles.len() + 1,
        forall|i: int|
            0 <= i < handles.len() ==> (#[trigger] run[i]).step == ExportStep::Join(
                handles[handles.len() - 1 - i],
            ),
    decreases run.len(),
{
    if handles.len() == 0 {
        if run.len() > 1 {
            assert(run[0].step is Join);
        }
    } else {
        assert(run[0].step is Join);
        assert(run.len() > 1);
        let rest = run.drop_first();
        let fewer = handles.drop_last();
        assert(is_waiting(rest[0], fewer));
        assert forall|i: int|
            #![trigger rest[i]]
            0 <= i < rest.len() - 1 implies rest[i].step is Join && join_step(
            rest[i],
            Ok(()),
            Ok(rest[i + 1]),
        ) by {
            assert(rest[i] == run[i + 1]);
            assert(rest[i + 1] == run[i + 2]);
        }
        assert(rest.last() == run.last());
        export_waits_for_all(rest, fewer);
        assert forall|i: int| 0 <= i < handles.len() implies (#[trigger] run[i]).step
            == ExportStep::Join(handles[handles.len() - 1 - i]) by {
            if i > 0 {
                assert(run[i] == rest[i - 1]);
                assert(fewer[fewer.len() - 1 - (i - 1)] == handles[handles.len() - 1 - i]);
            }
        }
    }
}

} // verus!
