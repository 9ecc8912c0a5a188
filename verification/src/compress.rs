//! Compression of a completed log file.
//!
//! Like a rotation, a compression is a sequence of steps, each with an outcome on disk.
use crate::errors::CompressError;
use crate::gzip::{
    finish_stream, flush_pieces, gzip_bytes, gzip_flushed, gzip_given, is_flushed, new_encoder,
    pieces_of, write_piece, Encoder,
};
use crate::order::Parts;
use crate::path::{extension, parent, LogPath, SEPARATOR};
use crate::rotating_file::{current_file_is_not_listed, RotatingFile};
use crate::storage::{compressed_ext, compressed_path, compression_appends_suffix, gz, log, log_gz};
use crate::work::{forgets, WorkId};
use std::io;
use vstd::prelude::*;

verus! {

/// What a compression has to do next.
pub enum CompressStep {
    /// Open the input file for reading.
    OpenInput,
    /// Open the output file for writing, empty.
    OpenOutput,
    /// Read the next piece of the input file.
    Read(Encoder),
    /// Write these bytes, which the encoder gave out when it took a piece, to the output file.
    Write(Encoder, Vec<u8>),
    /// Write these bytes, which the encoder gave out when it was flushed, to the output file.
    Flush(Encoder, Vec<u8>),
    /// Write these bytes, the end of the stream, to the output file.
    Finish(Vec<u8>),
    /// Sync the output file to disk.
    SyncFile,
    /// Delete the input file.
    RemoveInput,
    /// Sync this directory, which holds both files.
    SyncDir(LogPath),
    /// Nothing: the output file has taken the place of the input file.
    Done,
}

/// The compression of one file.
pub struct Compression {
    pub in_path: LogPath,
    pub out_path: LogPath,
    pub step: CompressStep,
}

/// How a compression proceeds from a step other than reading and its outcome, to the next step or
/// the error.
pub open spec fn compress_step(
    before: Compression,
    outcome: Result<(), io::Error>,
    next: Result<Compression, CompressError>,
) -> bool {
    match (before.step, outcome) {
        (CompressStep::OpenInput, Ok(_)) => next == Ok::<Compression, CompressError>(
            Compression { step: CompressStep::OpenOutput, ..before },
        ),
        (CompressStep::OpenInput, Err(error)) => next == Err::<Compression, CompressError>(
            CompressError::OpenInput(before.in_path, error),
        ),
        (CompressStep::OpenOutput, Ok(_)) => {
            &&& next matches Ok(after)
            &&& after == (Compression { step: after.step, ..before })
            &&& after.step matches CompressStep::Read(encoder)
            &&& pieces_of(encoder) == Seq::<Seq<u8>>::empty()
            &&& !is_flushed(encoder)
            &&& gzip_given(pieces_of(encoder)) == Seq::<u8>::empty()
        },
        (CompressStep::OpenOutput, Err(error)) => next == Err::<Compression, CompressError>(
            CompressError::OpenOutput(before.out_path, error),
        ),
        (CompressStep::Write(encoder, _), Ok(_)) => next == Ok::<Compression, CompressError>(
            Compression { step: CompressStep::Read(encoder), ..before },
        ),
        (CompressStep::Write(_, _), Err(error)) => next == Err::<Compression, CompressError>(
            CompressError::Write(before.out_path, error),
        ),
        (CompressStep::Flush(encoder, _), Ok(_)) => {
            &&& next matches Ok(after)
            &&& after == (Compression { step: after.step, ..before })
            &&& after.step matches CompressStep::Finish(end)
            &&& gzip_flushed(pieces_of(encoder)) + end@ == gzip_bytes(pieces_of(encoder))
            &&& gzip_bytes(pieces_of(encoder)).len() >= 18
        },
        (CompressStep::Flush(_, _), Err(error)) => next == Err::<Compression, CompressError>(
            CompressError::FlushGZip(before.out_path, error),
        ),
        (CompressStep::Finish(_), _) => next == Ok::<Compression, CompressError>(
            Compression { step: CompressStep::SyncFile, ..before },
        ),
        (CompressStep::SyncFile, Ok(_)) => next == Ok::<Compression, CompressError>(
            Compression { step: CompressStep::RemoveInput, ..before },
        ),
        (CompressStep::SyncFile, Err(error)) => next == Err::<Compression, CompressError>(
            CompressError::SyncFile(before.out_path, error),
        ),
        (CompressStep::RemoveInput, Ok(_)) => {
            &&& next matches Ok(after)
            &&& after == (Compression { step: after.step, ..before })
            &&& after.step matches CompressStep::SyncDir(dir)
            &&& parent(before.in_path@) == Some(dir@)
        },
        (CompressStep::RemoveInput, Err(error)) => next == Err::<Compression, CompressError>(
            CompressError::Remove(before.in_path, error),
        ),
        (CompressStep::SyncDir(_), Ok(_)) => next == Ok::<Compression, CompressError>(
            Compression { step: CompressStep::Done, ..before },
        ),
        (CompressStep::SyncDir(dir), Err(error)) => next == Err::<Compression, CompressError>(
            CompressError::SyncDir(dir, error),
        ),
        _ => next == Ok::<Compression, CompressError>(before),
    }
}

/// How a compression proceeds from reading a piece of the input: what the encoder gives out of it
/// is to be written. An empty piece is the end of the input: the encoder is flushed.
pub open spec fn read_step(
    before: Compression,
    outcome: Result<Vec<u8>, io::Error>,
    next: Result<Compression, CompressError>,
) -> bool {
    &&& before.step matches CompressStep::Read(encoder)
    &&& match outcome {
        Ok(piece) => {
            &&& next matches Ok(after)
            &&& after == (Compression { step: after.step, ..before })
            &&& if piece@.len() > 0 {
                &&& after.step matches CompressStep::Write(fed, out)
                &&& pieces_of(fed) == pieces_of(encoder).push(piece@)
                &&& !is_flushed(fed)
                &&& gzip_given(pieces_of(encoder)) + out@ == gzip_given(pieces_of(fed))
            } else {
                &&& after.step matches CompressStep::Flush(flushed, out)
                &&& pieces_of(flushed) == pieces_of(encoder)
                &&& is_flushed(flushed)
                &&& gzip_given(pieces_of(encoder)) + out@ == gzip_flushed(pieces_of(flushed))
            }
        },
        Err(error) => next == Err::<Compression, CompressError>(
            CompressError::Write(before.out_path, error),
        ),
    }
}

/// The output file has taken the place of the input file in the listing, and the compression is no
/// longer among those that run.
pub open spec fn is_recorded<H>(
    compression: Compression,
    id: WorkId,
    before: RotatingFile<H>,
    after: RotatingFile<H>,
) -> bool {
    &&& after == (RotatingFile { state: after.state, work: after.work, ..before })
    &&& forgets(before.work@, id, after.work@)
    &&& after.work.next() == before.work.next()
    &&& forall|path: Parts|
        after.state@.contains(path) <==> (before.state@.contains(path) && path
            != compression.in_path@) || path == compression.out_path@
    &&& after.state@.len() == before.state@.len() + if before.state@.contains(
        compression.out_path@,
    ) {
        0int
    } else {
        1int
    }
}

impl<H> RotatingFile<H> {
    /// The compression that a rotation has to start: that of the current file.
    pub fn current_compression(&self) -> (res: Compression)
        requires
            self.is_valid(),
        ensures
            res.is_valid(),
            res.in_path@ == self.current.path@,
            res.step is OpenInput,
    {
        proof {
            current_file_is_not_listed(*self);
        }
        Compression::start(self.current.path.clone())
    }
}

impl Compression {
    /// The input file is an uncompressed log file, the output file has its compressed name, and
    /// the encoder is flushed once, when all input has been read.
    pub open spec fn is_valid(self) -> bool {
        &&& extension(self.in_path@) == Some(log())
        &&& self.out_path@ == compressed_path(self.in_path@)
        &&& match self.step {
            CompressStep::Read(encoder) => !is_flushed(encoder),
            CompressStep::Write(encoder, _) => !is_flushed(encoder),
            CompressStep::Flush(encoder, _) => is_flushed(encoder),
            _ => true,
        }
    }

    /// The compression of a log file.
    ///
    /// Files being compressed always have the extension `.log`, otherwise their extension would
    /// not be correctly set to `.log.gz`.
    pub fn start(in_path: LogPath) -> (res: Compression)
        requires
            extension(in_path@) == Some(log()),
        ensures
            res.is_valid(),
            res.in_path == in_path,
            res.step is OpenInput,
    {
        proof {
            assert(!log_gz().contains(SEPARATOR)) by {
                assert(forall|i: int| 0 <= i < 6 ==> log_gz()[i] != SEPARATOR);
            }
        }
        let out_path = in_path.with_extension(compressed_ext());
        Compression { in_path, out_path, step: CompressStep::OpenInput }
    }

    /// Goes on, now that the step has been tried with this outcome. Where the stream is finished,
    /// the outcome is not looked at; where the input is read, see [`Compression::read`].
    pub fn resume(self, outcome: Result<(), io::Error>) -> (next: Result<
        Compression,
        CompressError,
    >)
        requires
            self.is_valid(),
        ensures
            compress_step(self, outcome, next),
            next matches Ok(after) ==> after.is_valid(),
    {
        let Compression { in_path, out_path, step } = self;
        let step = match step {
            CompressStep::OpenInput => match outcome {
                Ok(_) => CompressStep::OpenOutput,
                Err(error) => return Err(CompressError::OpenInput(in_path, error)),
            },
            CompressStep::OpenOutput => match outcome {
                Ok(_) => CompressStep::Read(new_encoder()),
                Err(error) => return Err(CompressError::OpenOutput(out_path, error)),
            },
            CompressStep::Write(encoder, _) => match outcome {
                Ok(_) => CompressStep::Read(encoder),
                Err(error) => return Err(CompressError::Write(out_path, error)),
            },
            CompressStep::Flush(encoder, _) => match outcome {
                Ok(_) => CompressStep::Finish(finish_stream(encoder)),
                Err(error) => return Err(CompressError::FlushGZip(out_path, error)),
            },
            CompressStep::Finish(_) => CompressStep::SyncFile,
            CompressStep::SyncFile => match outcome {
                Ok(_) => CompressStep::RemoveInput,
                Err(error) => return Err(CompressError::SyncFile(out_path, error)),
            },
            CompressStep::RemoveInput => match outcome {
                Ok(_) => match in_path.parent() {
                    Some(dir) => CompressStep::SyncDir(dir),
                    None => {
                        assert(false);
                        CompressStep::Done
                    },
                },
                Err(error) => return Err(CompressError::Remove(in_path, error)),
            },
            CompressStep::SyncDir(dir) => match outcome {
                Ok(_) => CompressStep::Done,
                Err(error) => return Err(CompressError::SyncDir(dir, error)),
            },
            CompressStep::Read(encoder) => CompressStep::Read(encoder),
            CompressStep::Done => CompressStep::Done,
        };
        Ok(Compression { in_path, out_path, step })
    }

    /// The compression once the encoder has taken a piece of the input and given out these bytes,
    /// or has been flushed at its end.
    pub fn encoded(
        in_path: LogPath,
        out_path: LogPath,
        encoder: Encoder,
        out: Vec<u8>,
        at_end: bool,
    ) -> (res: Compression)
        ensures
            res.in_path == in_path,
            res.out_path == out_path,
            res.step == (if at_end {
                CompressStep::Flush(encoder, out)
            } else {
                CompressStep::Write(encoder, out)
            }),
    {
        let step = if at_end {
            CompressStep::Flush(encoder, out)
        } else {
            CompressStep::Write(encoder, out)
        };
        Compression { in_path, out_path, step }
    }

    /// Goes on, now that a piece of the input has been read with this outcome: hands it to the
    /// encoder. An empty piece is the end of the input.
    pub fn read(self, outcome: Result<Vec<u8>, io::Error>) -> (next: Result<
        Compression,
        CompressError,
    >)
        requires
            self.is_valid(),
            self.step is Read,
        ensures
            read_step(self, outcome, next),
            next matches Ok(after) ==> after.is_valid(),
    {
        let Compression { in_path, out_path, step } = self;
        let piece = match outcome {
            Ok(piece) => piece,
            Err(error) => return Err(CompressError::Write(out_path, error)),
        };
        let mut encoder = match step {
            CompressStep::Read(encoder) => encoder,
            step => {
                assert(false);
                return Ok(Compression { in_path, out_path, step });
            },
        };
        let at_end = piece.len() == 0;
        let out = if at_end {
            flush_pieces(&mut encoder)
        } else {
            write_piece(&mut encoder, piece.as_slice())
        };
        Ok(Compression::encoded(in_path, out_path, encoder, out, at_end))
    }

    /// Records that the output file has taken the place of the input file, and that the
    /// compression, which ran under this id, has ended.
    pub fn record<H>(self, id: WorkId, file: &mut RotatingFile<H>)
        requires
            self.is_valid(),
            self.step is Done,
            old(file).is_valid(),
        ensures
            final(file).is_valid(),
            is_recorded(self, id, *old(file), *final(file)),
    {
        proof {
            compression_appends_suffix(self.in_path@);
            assert(log().len() == 3 && gz().len() == 2);
        }
        file.state.file_compressed(self.in_path, self.out_path);
        file.work.compression_finished(id);
    }
}

/// How far a compression has come. Pieces are read and written in turn.
pub open spec fn progress(step: CompressStep) -> int {
    match step {
        CompressStep::OpenInput => 0,
        CompressStep::OpenOutput => 1,
        CompressStep::Read(_) => 2,
        CompressStep::Write(_, _) => 2,
        CompressStep::Flush(_, _) => 3,
        CompressStep::Finish(_) => 4,
        CompressStep::SyncFile => 5,
        CompressStep::RemoveInput => 6,
        CompressStep::SyncDir(_) => 7,
        CompressStep::Done => 8,
    }
}

/// What a step writes to the output file.
pub open spec fn output_of(step: CompressStep) -> Seq<u8> {
    match step {
        CompressStep::Write(_, out) => out@,
        CompressStep::Flush(_, out) => out@,
        CompressStep::Finish(end) => end@,
        _ => Seq::empty(),
    }
}

/// A compression takes its steps one by one, each once and in order, but for the pieces of the
/// input: each is written before the next is read. It keeps to its two files.
pub proof fn compression_advances_by_one(
    before: Compression,
    outcome: Result<(), io::Error>,
    after: Compression,
)
    requires
        before.step !is Read,
        before.step !is Done,
        compress_step(before, outcome, Ok(after)),
    ensures
        before.step is Write ==> after.step is Read,
        before.step !is Write ==> progress(after.step) == progress(before.step) + 1,
        after.in_path == before.in_path,
        after.out_path == before.out_path,
{
}

/// A piece that was read is written; at the end of the input the encoder is flushed.
pub proof fn compression_reads_to_the_end(before: Compression, piece: Vec<u8>, after: Compression)
    requires
        read_step(before, Ok(piece), Ok(after)),
    ensures
        piece@.len() > 0 ==> after.step is Write,
        piece@.len() == 0 ==> after.step is Flush && progress(after.step) == progress(before.step)
            + 1,
        after.in_path == before.in_path,
        after.out_path == before.out_path,
{
}

/// The input file is deleted only once the output file has been synced to disk.
pub proof fn input_is_deleted_after_sync(
    before: Compression,
    outcome: Result<(), io::Error>,
    after: Compression,
)
    requires
        compress_step(before, outcome, Ok(after)),
        after.step is RemoveInput,
    ensures
        before.step is SyncFile,
        outcome is Ok,
{
}

/// What some steps write to the output file, one after the other.
pub open spec fn all_output(steps: Seq<Compression>) -> Seq<u8>
    decreases steps.len(),
{
    if steps.len() == 0 {
        Seq::empty()
    } else {
        all_output(steps.drop_last()) + output_of(steps.last().step)
    }
}

/// A compression reads pieces of its input and writes what the encoder gives out, in turn.
pub open spec fn is_encoding_run(
    reads: Seq<Compression>,
    pieces: Seq<Vec<u8>>,
    writes: Seq<Compression>,
) -> bool {
    &&& reads.len() == pieces.len() + 1
    &&& writes.len() == pieces.len()
    &&& reads[0].step matches CompressStep::Read(encoder)
    &&& pieces_of(encoder) == Seq::<Seq<u8>>::empty()
    &&& gzip_given(pieces_of(encoder)) == Seq::<u8>::empty()
    &&& forall|i: int|
        #![trigger pieces[i]]
        0 <= i < pieces.len() ==> pieces[i]@.len() > 0 && read_step(
            reads[i],
            Ok(pieces[i]),
            Ok(writes[i]),
        ) && compress_step(writes[i], Ok(()), Ok(reads[i + 1]))
}

/// The contents of pieces.
pub open spec fn contents(pieces: Seq<Vec<u8>>) -> Seq<Seq<u8>> {
    Seq::new(pieces.len(), |i: int| pieces[i]@)
}

proof fn written_so_far(
    reads: Seq<Compression>,
    pieces: Seq<Vec<u8>>,
    writes: Seq<Compression>,
    k: int,
)
    requires
        is_encoding_run(reads, pieces, writes),
        0 <= k <= pieces.len(),
    ensures
        reads[k].step is Read,
        pieces_of(reads[k].step->Read_0) == contents(pieces).take(k),
        all_output(writes.take(k)) == gzip_given(contents(pieces).take(k)),
    decreases k,
{
    if k == 0 {
        assert(contents(pieces).take(0) =~= Seq::<Seq<u8>>::empty());
        assert(writes.take(0).len() == 0);
    } else {
        written_so_far(reads, pieces, writes, k - 1);
        assert(pieces[k - 1]@.len() > 0);
        assert(contents(pieces).take(k) =~= contents(pieces).take(k - 1).push(pieces[k - 1]@));
        assert(writes.take(k).drop_last() =~= writes.take(k - 1));
        assert(writes.take(k).last() == writes[k - 1]);
    }
}

/// What a compression writes to the output file is, in this order and with nothing between, the
/// gzip stream of the pieces that it read; before the step whose failure is passed over it has
/// written all that the flushed encoder had given out.
pub proof fn output_is_the_gzip_stream(
    reads: Seq<Compression>,
    pieces: Seq<Vec<u8>>,
    writes: Seq<Compression>,
    end: Vec<u8>,
    flush: Compression,
    finish: Compression,
)
    requires
        is_encoding_run(reads, pieces, writes),
        end@.len() == 0,
        read_step(reads.last(), Ok(end), Ok(flush)),
        compress_step(flush, Ok(()), Ok(finish)),
    ensures
        all_output(writes) + output_of(flush.step) == gzip_flushed(contents(pieces)),
        all_output(writes) + output_of(flush.step) + output_of(finish.step) == gzip_bytes(
            contents(pieces),
        ),
{
    written_so_far(reads, pieces, writes, pieces.len() as int);
    assert(writes.take(pieces.len() as int) =~= writes);
    assert(contents(pieces).take(pieces.len() as int) =~= contents(pieces));
}

/// To record a compression is to forget no compressed file.
pub proof fn recording_forgets_nothing<H>(
    compression: Compression,
    id: WorkId,
    before: RotatingFile<H>,
    after: RotatingFile<H>,
    path: Parts,
)
    requires
        compression.is_valid(),
        before.is_valid(),
        is_recorded(compression, id, before, after),
        before.state@.contains(path),
    ensures
        after.state@.contains(path),
{
    assert(log().len() == 3 && gz().len() == 2);
}

/// When a compression is recorded its file passes from those being compressed to those listed:
/// their number together stays as it was.
pub proof fn compression_keeps_the_count<H>(
    compression: Compression,
    id: WorkId,
    before: RotatingFile<H>,
    after: RotatingFile<H>,
    i: int,
)
    requires
        is_recorded(compression, id, before, after),
        !before.state@.contains(compression.out_path@),
        0 <= i < before.work@.len(),
        before.work@[i].0 == id,
    ensures
        after.state@.len() + after.work@.len() == before.state@.len() + before.work@.len(),
        after.files_counted() == before.files_counted() + 1,
{
    assert(after.work@ == before.work@.remove(i));
}

} // verus!
