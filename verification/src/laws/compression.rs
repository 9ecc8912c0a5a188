//! Compression.
use crate::compress::{CompressStep, Compression};
use crate::errors::CompressError;
use crate::gzip::{gzip_bytes, gzip_flushed, gzip_given, is_flushed, pieces_of, Encoder};
use crate::order::{path_lt, Parts};
use crate::path::{extension, LogPath, DOT};
use crate::rotating_file::RotatingFile;
use crate::storage::{compression_appends_suffix, gz, log};
use crate::work::{Work, WorkId};
use std::io;
use vstd::prelude::*;

verus! {

/// The compression of a log file keeps its directory and appends `.gz` to its name.
pub proof fn compression_is_named_after_its_input(in_path: LogPath, res: Compression)
    requires
        call_ensures(Compression::start, (in_path,), res),
        extension(in_path@) == Some(log()),
    ensures
        res.in_path == in_path,
        res.step is OpenInput,
        res.out_path@.len() == in_path@.len(),
        res.out_path@.drop_last() == in_path@.drop_last(),
        res.out_path@.last() == in_path@.last() + seq![0x2eu8, 0x67u8, 0x7au8],
{
    compression_appends_suffix(in_path@);
    let name = in_path@.last();
    assert(in_path@.len() > 0);
    assert(res.out_path@.drop_last() =~= in_path@.drop_last());
    assert(name.push(DOT) + gz() =~= name + seq![0x2eu8, 0x67u8, 0x7au8]);
}

/// A rotation compresses the current file, whatever else the rotating file knows.
pub proof fn current_file_is_the_one_compressed<H>(file: RotatingFile<H>, res: Compression)
    requires
        call_ensures(RotatingFile::<H>::current_compression, (&file,), res),
    ensures
        res.in_path@ == file.current.path@,
        res.step is OpenInput,
        file.current.path@.len() > 0,
        res.out_path@.len() == file.current.path@.len(),
        res.out_path@.drop_last() == file.current.path@.drop_last(),
        res.out_path@.last() == file.current.path@.last() + seq![0x2eu8, 0x67u8, 0x7au8],
{
    let path = file.current.path@;
    compression_appends_suffix(path);
    assert(path.len() > 0);
    assert(res.out_path@.drop_last() =~= path.drop_last());
    assert(path.last().push(DOT) + gz() =~= path.last() + seq![0x2eu8, 0x67u8, 0x7au8]);
}

/// A compression keeps to its two files, whatever happens.
pub proof fn compression_keeps_to_its_files(
    before: Compression,
    outcome: Result<(), io::Error>,
    next: Result<Compression, CompressError>,
)
    requires
        call_ensures(Compression::resume, (before, outcome), next),
    ensures
        next matches Ok(after) ==> after.in_path == before.in_path && after.out_path
            == before.out_path,
{
}

/// The input file is opened first, then the output file. Then the input is read with an encoder
/// that has been given nothing. A file that cannot be opened is an error that names it.
pub proof fn files_are_opened_first(
    before: Compression,
    outcome: Result<(), io::Error>,
    next: Result<Compression, CompressError>,
)
    requires
        call_ensures(Compression::resume, (before, outcome), next),
        before.step is OpenInput || before.step is OpenOutput,
    ensures
        before.step is OpenInput ==> match outcome {
            Ok(_) => next matches Ok(after) && after.step is OpenOutput,
            Err(error) => next == Err::<Compression, CompressError>(
                CompressError::OpenInput(before.in_path, error),
            ),
        },
        before.step is OpenOutput ==> match outcome {
            Ok(_) => next matches Ok(after) && after.step matches CompressStep::Read(encoder)
                && pieces_of(encoder).len() == 0 && !is_flushed(encoder) && gzip_given(
                pieces_of(encoder),
            ).len() == 0,
            Err(error) => next == Err::<Compression, CompressError>(
                CompressError::OpenOutput(before.out_path, error),
            ),
        },
{
}

/// Every piece that is read goes to the encoder, and what it gives out is written. At the end of
/// the input the encoder is flushed, and what it gives out is written. Input that cannot be read is
/// an error that names the output file.
pub proof fn pieces_are_encoded(
    before: Compression,
    encoder: Encoder,
    outcome: Result<Vec<u8>, io::Error>,
    next: Result<Compression, CompressError>,
)
    requires
        call_ensures(Compression::read, (before, outcome), next),
        before.step == CompressStep::Read(encoder),
    ensures
        next matches Ok(after) ==> after.in_path == before.in_path && after.out_path
            == before.out_path,
        (match outcome {
            Ok(piece) => if piece@.len() > 0 {
                next matches Ok(after) && after.step matches CompressStep::Write(fed, out)
                    && pieces_of(fed) == pieces_of(encoder).push(piece@) && !is_flushed(fed)
                    && gzip_given(
                    pieces_of(encoder),
                ) + out@ == gzip_given(pieces_of(encoder).push(piece@))
            } else {
                next matches Ok(after) && after.step matches CompressStep::Flush(flushed, out)
                    && pieces_of(flushed) == pieces_of(encoder) && is_flushed(flushed)
                    && gzip_given(pieces_of(encoder))
                    + out@ == gzip_flushed(pieces_of(encoder))
            },
            Err(error) => next == Err::<Compression, CompressError>(
                CompressError::Write(before.out_path, error),
            ),
        }),
{
}

/// What the encoder gave out is written before more is read, and the encoder stays the same. What
/// cannot be written is an error that names the output file.
pub proof fn output_is_written_before_more_is_read(
    before: Compression,
    encoder: Encoder,
    out: Vec<u8>,
    outcome: Result<(), io::Error>,
    next: Result<Compression, CompressError>,
)
    requires
        call_ensures(Compression::resume, (before, outcome), next),
        before.step == CompressStep::Write(encoder, out),
    ensures
        outcome is Ok ==> (next matches Ok(after) && after.step == CompressStep::Read(encoder)),
        outcome matches Err(error) ==> next == Err::<Compression, CompressError>(
            CompressError::Write(before.out_path, error),
        ),
{
}

/// Once all is flushed the stream is finished. A flush that cannot be written is an error that
/// names the output file; the end of the stream is not looked at.
pub proof fn stream_is_flushed_before_it_is_finished(
    flush: Compression,
    encoder: Encoder,
    out: Vec<u8>,
    outcome: Result<(), io::Error>,
    finish: Result<Compression, CompressError>,
    end: Compression,
    last: Result<Compression, CompressError>,
)
    requires
        call_ensures(Compression::resume, (flush, outcome), finish),
        flush.step == CompressStep::Flush(encoder, out),
        call_ensures(Compression::resume, (end, outcome), last),
        end.step is Finish,
    ensures
        outcome is Ok ==> (finish matches Ok(after) && after.step matches CompressStep::Finish(rest)
            && gzip_flushed(pieces_of(encoder)) + rest@ == gzip_bytes(pieces_of(encoder))),
        outcome matches Err(error) ==> finish == Err::<Compression, CompressError>(
            CompressError::FlushGZip(flush.out_path, error),
        ),
        last matches Ok(after) && after.step is SyncFile,
{
}

/// The output file is synced before the input file is deleted, and then the directory that held the
/// input file is synced. Where one of these fails, the error names what it was done to.
pub proof fn input_is_deleted_last(
    before: Compression,
    outcome: Result<(), io::Error>,
    next: Result<Compression, CompressError>,
)
    requires
        call_ensures(Compression::resume, (before, outcome), next),
        before.step is SyncFile || before.step is RemoveInput || before.step is SyncDir,
    ensures
        before.step is SyncFile ==> match outcome {
            Ok(_) => next matches Ok(after) && after.step is RemoveInput,
            Err(error) => next == Err::<Compression, CompressError>(
                CompressError::SyncFile(before.out_path, error),
            ),
        },
        before.step is RemoveInput ==> match outcome {
            Ok(_) => next matches Ok(after) && after.step matches CompressStep::SyncDir(dir)
                && before.in_path@.len() > 0 && dir@ == before.in_path@.drop_last(),
            Err(error) => next == Err::<Compression, CompressError>(
                CompressError::Remove(before.in_path, error),
            ),
        },
        before.step matches CompressStep::SyncDir(dir) ==> match outcome {
            Ok(_) => next matches Ok(after) && after.step is Done,
            Err(error) => next == Err::<Compression, CompressError>(
                CompressError::SyncDir(dir, error),
            ),
        },
{
}

/// A compression goes on from reading by what is read alone, and not at all from its end.
pub proof fn compression_stays_at_its_step(
    before: Compression,
    outcome: Result<(), io::Error>,
    next: Result<Compression, CompressError>,
)
    requires
        call_ensures(Compression::resume, (before, outcome), next),
        before.step is Read || before.step is Done,
    ensures
        next == Ok::<Compression, CompressError>(before),
{
}

/// When a compression is recorded, its output file is listed and its input file is not; all other
/// files are listed as before, in order. Of the pieces of work that run only this one is forgotten,
/// and the next id stays.
pub proof fn recorded_compression_is_listed<H>(
    compression: Compression,
    id: WorkId,
    file: &mut RotatingFile<H>,
    next: WorkId,
    following: WorkId,
)
    requires
        call_ensures(Compression::record::<H>, (compression, id, file), ()),
        call_ensures(Work::<H>::next_id, (&old(file).work,), next),
        call_ensures(Work::<H>::next_id, (&final(file).work,), following),
        compression.in_path@ != compression.out_path@,
    ensures
        final(file).storage == old(file).storage,
        final(file).limits == old(file).limits,
        final(file).current == old(file).current,
        following == next,
        final(file).state@.contains(compression.out_path@),
        !final(file).state@.contains(compression.in_path@),
        forall|i: int, j: int|
            #![trigger final(file).state@[i], final(file).state@[j]]
            0 <= i < j < final(file).state@.len() ==> path_lt(
                final(file).state@[i],
                final(file).state@[j],
            ),
        forall|path: Parts|
            path != compression.in_path@ && path != compression.out_path@ ==> (
            #[trigger] final(file).state@.contains(path) <==> old(file).state@.contains(path)),
        forall|i: int|
            0 <= i < old(file).work@.len()
                && (#[trigger] old(file).work@[i]).0 == id
                ==> final(file).work@ == old(file).work@.remove(i),
        (forall|i: int| 0 <= i < old(file).work@.len() ==> (#[trigger] old(file).work@[i]).0 != id)
            ==> final(file).work@ == old(file).work@,
{
}

} // verus!
