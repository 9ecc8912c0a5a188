//! What a rotating file and its disk go through, and what an export holds in the end.
//!
//! A history is a sequence of worlds, each with the event that led on to the next. An event is a
//! step of one of the operations, done on disk without failure; background compressions take their
//! steps in between at any time. What has been accepted by a write counts as being on disk: a
//! rotation flushes it before the file is read again.
use crate::calendar::{FIRST_FOUR_DIGIT_SECOND, LAST_FOUR_DIGIT_SECOND};
use crate::compress::{
    compress_step, is_recorded, output_of, progress, read_step, CompressStep, Compression,
};
use crate::export::{
    copy_step, export_rotation_step, export_step, handles_of, is_waiting, join_step, Export,
    ExportStep,
};
use crate::gzip::{gzip_bytes, gzip_flushed, gzip_given, is_flushed, pieces_of};
use crate::order::{path_lt, path_lt_irreflexive, Parts};
use crate::rotate::{is_next_after_sync, rotation_started, rotation_step, Rotation};
use crate::rotating_file::{is_written, RotatingFile};
use crate::state::{is_listing, listing_is_unique, paths_of};
use crate::storage::{
    compressed_path, compression_appends_suffix, files_are_listed_by_age, gz, log,
    new_file_is_uncompressed, NewFile, Storage,
};
use crate::time::Timestamp;
use crate::work::{forgets, WorkId};
use crate::write::Writing;
use vstd::prelude::*;

verus! {

/// A compression that runs in the background.
pub struct Task<H> {
    pub id: WorkId,
    pub handle: H,
    pub compression: Compression,
}

/// A rotating file, with all that it stands for.
pub struct World<H> {
    pub file: RotatingFile<H>,
    /// The contents of the files on disk.
    pub disk: Map<Parts, Seq<u8>>,
    /// The compressions that run, by the path of their input file.
    pub tasks: Map<Parts, Task<H>>,
    /// The export that is under way.
    pub export: Option<Export<H>>,
    /// All bytes that writes have accepted so far.
    pub accepted: Seq<u8>,
}

/// A rotation: its compression, the rotating file once that is recorded, and the file it opens.
pub struct Turn<H> {
    pub handle: H,
    pub compression: Compression,
    pub queued: RotatingFile<H>,
    /// The file that the rotation would open first.
    pub first: NewFile,
    /// The file that it opens: the first, or one begun at that moment with a number.
    pub next: NewFile,
}

/// What happens in a world.
pub enum Event<H> {
    /// A write to the current file.
    Write { bytes: Seq<u8>, written: usize },
    /// A rotation.
    Rotate(Turn<H>),
    /// A step of the compression of the file at this path; where it reads, it reads this piece.
    Compress { path: Parts, piece: Vec<u8>, following: Compression },
    /// The compression of the file at this path is recorded.
    Record(Parts),
    /// An export has rotated and begins to wait.
    BeginExport { turn: Turn<H>, rotating: Export<H>, next: Export<H> },
    /// The compression waited for has ended.
    Join(Export<H>),
    /// The output file of the export is created.
    CreateOutput(Export<H>),
    /// The next input file is opened and copied.
    Copy { opened: Export<H>, size: u64, next: Export<H> },
    /// The output file is flushed, or synced.
    Complete(Export<H>),
    /// The export has returned.
    EndExport,
}

/// Texts, one after the other.
pub open spec fn joined_texts(texts: Seq<Seq<u8>>) -> Seq<u8>
    decreases texts.len(),
{
    if texts.len() == 0 {
        Seq::empty()
    } else {
        joined_texts(texts.drop_last()) + texts.last()
    }
}

/// What a read of a file gives, from which these pieces have been read: what follows, some of it
/// or all. It is empty at the end of the file only.
pub open spec fn is_next_piece(piece: Seq<u8>, file: Seq<u8>, pieces: Seq<Seq<u8>>) -> bool {
    let from = joined_texts(pieces).len() as int;
    &&& from + piece.len() <= file.len()
    &&& piece == file.subrange(from, from + piece.len())
    &&& piece.len() == 0 ==> from == file.len()
}

/// The bytes are the gzip stream of the text, given to the encoder in some pieces.
pub open spec fn is_stream(bytes: Seq<u8>, text: Seq<u8>) -> bool {
    exists|pieces: Seq<Seq<u8>>| #[trigger]
        gzip_bytes(pieces) == bytes && joined_texts(pieces) == text
}

/// What a step of a compression does on disk.
pub open spec fn on_disk(step: Compression, disk: Map<Parts, Seq<u8>>) -> Map<Parts, Seq<u8>> {
    match step.step {
        CompressStep::OpenOutput => disk.insert(step.out_path@, Seq::empty()),
        CompressStep::Write(_, _) | CompressStep::Flush(_, _) | CompressStep::Finish(_) => {
            disk.insert(step.out_path@, disk[step.out_path@] + output_of(step.step))
        },
        CompressStep::RemoveInput => disk.remove(step.in_path@),
        _ => disk,
    }
}

/// The year has four digits.
pub open spec fn has_four_digits(file: NewFile) -> bool {
    FIRST_FOUR_DIGIT_SECOND <= file.began.secs <= LAST_FOUR_DIGIT_SECOND
}

/// A rotation up to the creation of the next file, whose name is free. No file has to be deleted.
/// The clock has moved on since the current file was begun, by a microsecond or more.
pub open spec fn is_turn<H>(before: World<H>, turn: Turn<H>) -> bool {
    &&& is_next_after_sync(before.file, Rotation::Compress)
    &&& turn.compression.is_valid()
    &&& turn.compression.in_path@ == before.file.current.path@
    &&& turn.compression.step is OpenInput
    &&& rotation_started(before.file, turn.handle, turn.queued, Rotation::Open(turn.first))
    &&& turn.next.is_for(before.file.storage)
    &&& turn.next.began == turn.first.began
    &&& has_four_digits(turn.next)
    &&& before.file.current.began.total_micros() < turn.next.began.total_micros()
    &&& !before.disk.contains_key(turn.next.path@)
}

/// The disk once a rotation is complete.
pub open spec fn disk_after<H>(before: World<H>, turn: Turn<H>) -> Map<Parts, Seq<u8>> {
    before.disk.insert(turn.next.path@, Seq::empty())
}

/// The compressions that run once a rotation is complete.
pub open spec fn tasks_after<H>(before: World<H>, turn: Turn<H>) -> Map<Parts, Task<H>> {
    before.tasks.insert(
        before.file.current.path@,
        Task {
            id: WorkId(before.file.work.next()),
            handle: turn.handle,
            compression: turn.compression,
        },
    )
}

/// How an event leads from one world to the next.
#[verifier::opaque]
pub open spec fn happens<H>(before: World<H>, event: Event<H>, after: World<H>) -> bool {
    &&& after.file.is_valid()
    &&& match event {
        Event::Write { bytes, written } => {
            let path = before.file.current.path@;
            &&& before.export is None
            &&& written == bytes.len()
            &&& is_written(before.file, Ok(written), after.file)
            &&& after == (World {
                file: after.file,
                disk: before.disk.insert(path, before.disk[path] + bytes),
                accepted: before.accepted + bytes,
                ..before
            })
        },
        Event::Rotate(turn) => {
            &&& before.export is None
            &&& is_turn(before, turn)
            &&& rotation_step(
                Rotation::Open(turn.next),
                turn.queued,
                Ok(()),
                after.file,
                Ok(Rotation::Done),
            )
            &&& after == (World {
                file: after.file,
                disk: disk_after(before, turn),
                tasks: tasks_after(before, turn),
                ..before
            })
        },
        Event::Compress { path, piece, following } => {
            let task = before.tasks[path];
            &&& before.tasks.contains_key(path)
            &&& task.compression.step !is Done
            &&& if task.compression.step is Read {
                &&& is_next_piece(
                    piece@,
                    before.disk[path],
                    pieces_of(task.compression.step->Read_0),
                )
                &&& read_step(task.compression, Ok(piece), Ok(following))
            } else {
                compress_step(task.compression, Ok(()), Ok(following))
            }
            &&& after == (World {
                disk: on_disk(task.compression, before.disk),
                tasks: before.tasks.insert(path, Task { compression: following, ..task }),
                ..before
            })
        },
        Event::Record(path) => {
            let task = before.tasks[path];
            &&& before.tasks.contains_key(path)
            &&& task.compression.step is Done
            &&& is_recorded(task.compression, task.id, before.file, after.file)
            &&& after == (World {
                file: after.file,
                tasks: before.tasks.remove(path),
                ..before
            })
        },
        Event::BeginExport { turn, rotating, next } => {
            &&& before.export is None
            &&& is_turn(before, turn)
            &&& rotating.step == ExportStep::<H>::Rotate(Rotation::Open(turn.next))
            &&& export_rotation_step(rotating, turn.queued, Ok(()), after.file, Ok(next))
            &&& next.step !is Rotate
            &&& after == (World {
                file: after.file,
                disk: disk_after(before, turn),
                tasks: tasks_after(before, turn),
                export: Some(next),
                ..before
            })
        },
        Event::Join(next) => {
            &&& before.export matches Some(export)
            &&& export.step matches ExportStep::Join(handle)
            &&& forall|path: Parts| #[trigger]
                before.tasks.contains_key(path) ==> before.tasks[path].handle != handle
            &&& join_step(export, Ok(()), Ok(next))
            &&& after == (World { export: Some(next), ..before })
        },
        Event::CreateOutput(next) => {
            &&& before.export matches Some(export)
            &&& export.step is CreateOutput
            &&& !before.disk.contains_key(export.dest@)
            &&& export_step(export, before.file, Ok(()), Ok(next))
            &&& after == (World {
                disk: before.disk.insert(export.dest@, Seq::empty()),
                export: Some(next),
                ..before
            })
        },
        Event::Copy { opened, size, next } => {
            &&& before.export matches Some(export)
            &&& export.step is OpenInput
            &&& export_step(export, before.file, Ok(()), Ok(opened))
            &&& copy_step(opened, Ok(size), Ok(next))
            &&& {
                let input = before.disk[export.files@[export.files_copied as int]@];
                &&& size == input.len()
                &&& after == (World {
                    disk: before.disk.insert(export.dest@, before.disk[export.dest@] + input),
                    export: Some(next),
                    ..before
                })
            }
        },
        Event::Complete(next) => {
            &&& before.export matches Some(export)
            &&& export.step is Flush || export.step is Sync
            &&& export_step(export, before.file, Ok(()), Ok(next))
            &&& after == (World { export: Some(next), ..before })
        },
        Event::EndExport => {
            &&& before.export matches Some(export)
            &&& export.step is Done
            &&& after == (World { export: None, ..before })
        },
    }
}

/// Each world leads on to the next.
pub open spec fn is_history<H>(worlds: Seq<World<H>>, events: Seq<Event<H>>) -> bool {
    &&& worlds.len() == events.len() + 1
    &&& forall|i: int|
        #![trigger events[i]]
        0 <= i < events.len() ==> happens(worlds[i], events[i], worlds[i + 1])
}

/// A log file, what was written to it and, once its compression is recorded, what it was
/// compressed into.
pub struct Entry {
    pub file: NewFile,
    pub data: Seq<u8>,
    pub packed: Option<Seq<u8>>,
}

/// What was written to the files, one after the other.
pub open spec fn all_data(book: Seq<Entry>) -> Seq<u8>
    decreases book.len(),
{
    if book.len() == 0 {
        Seq::empty()
    } else {
        all_data(book.drop_last()) + book.last().data
    }
}

/// What the files are compressed into, one after the other.
pub open spec fn all_packed(book: Seq<Entry>) -> Seq<u8>
    decreases book.len(),
{
    if book.len() == 0 {
        Seq::empty()
    } else {
        all_packed(book.drop_last()) + book.last().packed->0
    }
}

/// The files are of that storage, in the order in which they were begun, each at a moment of its
/// own.
pub open spec fn in_order(storage: Storage, book: Seq<Entry>) -> bool {
    &&& forall|k: int|
        0 <= k < book.len() ==> (#[trigger] book[k]).file.is_for(storage) && has_four_digits(
            book[k].file,
        )
    &&& forall|j: int, k: int|
        #![trigger book[j], book[k]]
        0 <= j < k < book.len() ==> book[j].file.began.total_micros()
            < book[k].file.began.total_micros()
}

/// These pieces have been read of the data, from its beginning.
pub open spec fn are_read(pieces: Seq<Seq<u8>>, data: Seq<u8>) -> bool {
    &&& joined_texts(pieces).len() <= data.len()
    &&& joined_texts(pieces) == data.take(joined_texts(pieces).len() as int)
}

/// How far a compression has brought its file: where it stands, and what the output file holds.
pub open spec fn is_packed_so_far(step: CompressStep, data: Seq<u8>, held: Seq<u8>) -> bool {
    match step {
        CompressStep::OpenInput | CompressStep::OpenOutput => true,
        CompressStep::Read(encoder) => {
            &&& !is_flushed(encoder)
            &&& are_read(pieces_of(encoder), data)
            &&& held == gzip_given(pieces_of(encoder))
        },
        CompressStep::Write(encoder, out) => {
            &&& !is_flushed(encoder)
            &&& are_read(pieces_of(encoder), data)
            &&& held + out@ == gzip_given(pieces_of(encoder))
        },
        CompressStep::Flush(encoder, out) => {
            &&& joined_texts(pieces_of(encoder)) == data
            &&& held + out@ == gzip_flushed(pieces_of(encoder))
        },
        CompressStep::Finish(end) => {
            &&& is_stream(held + end@, data)
            &&& (held + end@).len() >= 18
        },
        _ => {
            &&& is_stream(held, data)
            &&& held.len() >= 18
        },
    }
}

/// The compression is that of the file, and has brought it so far.
pub open spec fn is_packing(
    compression: Compression,
    entry: Entry,
    disk: Map<Parts, Seq<u8>>,
) -> bool {
    let input = compression.in_path@;
    let output = compression.out_path@;
    &&& compression.is_valid()
    &&& input == entry.file.path@
    &&& progress(compression.step) <= 2 ==> disk.contains_key(input) && disk[input] == entry.data
    &&& progress(compression.step) >= 2 ==> disk.contains_key(output)
    &&& is_packed_so_far(compression.step, entry.data, disk[output])
}

/// A completed file is being compressed, or it is listed and stands compressed on disk.
pub open spec fn is_accounted<H>(world: World<H>, entry: Entry, new: bool) -> bool {
    let path = entry.file.path@;
    let compressed = compressed_path(path);
    if world.tasks.contains_key(path) {
        &&& entry.packed is None
        &&& is_packing(world.tasks[path].compression, entry, world.disk)
        &&& !world.file.state@.contains(compressed)
    } else {
        &&& entry.packed is Some
        &&& world.file.state@.contains(compressed)
        &&& world.disk.contains_key(compressed)
        &&& world.disk[compressed] == entry.packed->0
        &&& new ==> is_stream(entry.packed->0, entry.data) && entry.packed->0.len() >= 18
    }
}

/// Some completed file of the book is the one that is compressed at this path.
pub open spec fn is_input(book: Seq<Entry>, path: Parts) -> bool {
    exists|k: int| 0 <= k < book.len() - 1 && (#[trigger] book[k]).file.path@ == path
}

/// Some completed file of the book is compressed into this path.
pub open spec fn is_output(book: Seq<Entry>, path: Parts) -> bool {
    exists|k: int|
        0 <= k < book.len() - 1 && compressed_path((#[trigger] book[k]).file.path@) == path
}

/// The end of a compression will be waited for: its handle is among those that run, or has been
/// taken over by the export.
pub open spec fn is_awaited<H>(world: World<H>, task: Task<H>) -> bool {
    match world.export {
        None => world.file.work@.contains((task.id, task.handle)),
        Some(export) => export.waiting@.contains(task.handle) || export.step == ExportStep::Join(
            task.handle,
        ),
    }
}

/// The export has copied the compressed files up to the next one.
pub open spec fn is_copying<H>(world: World<H>, export: Export<H>, book: Seq<Entry>) -> bool {
    let dest = export.dest@;
    &&& forall|path: Parts| !#[trigger] world.tasks.contains_key(path)
    &&& paths_of(export.files@) == world.file.state@
    &&& export.files_copied <= export.files@.len()
    &&& export.files@.len() == book.len() - 1
    &&& world.disk.contains_key(dest)
    &&& world.disk[dest] == all_packed(book.take(export.files_copied as int))
    &&& export.bytes_copied == world.disk[dest].len()
    &&& !is_output(book, dest)
    &&& dest != book.last().file.path@
}

/// What holds while an export is under way.
pub open spec fn is_exporting<H>(world: World<H>, export: Export<H>, book: Seq<Entry>) -> bool {
    &&& book.last().data.len() == 0
    &&& match export.step {
        ExportStep::Rotate(_) | ExportStep::Copy => false,
        ExportStep::Join(_) => true,
        ExportStep::CreateOutput => export.waiting@.len() == 0,
        ExportStep::OpenInput => is_copying(world, export, book) && export.files_copied
            < export.files@.len(),
        _ => is_copying(world, export, book) && export.files_copied == export.files@.len(),
    }
}

/// The book tells what became of each log file, the current one last. The first `older` of them
/// were there before: of the others, all that was written is known.
pub open spec fn is_ledger<H>(world: World<H>, book: Seq<Entry>, older: int) -> bool {
    &&& world.file.is_valid()
    &&& 0 <= older < book.len()
    &&& in_order(world.file.storage, book)
    &&& world.file.current.file() == book.last().file
    &&& book.last().packed is None
    &&& world.disk.contains_key(book.last().file.path@)
    &&& world.disk[book.last().file.path@] == book.last().data
    &&& world.accepted == all_data(book.skip(older))
    &&& forall|k: int|
        0 <= k < book.len() - 1 ==> is_accounted(world, #[trigger] book[k], older <= k)
    &&& forall|path: Parts| #[trigger]
        world.tasks.contains_key(path) ==> is_input(book, path) && world.tasks[path].id.0
            < world.file.work.next()
    &&& forall|p: Parts, q: Parts|
        #![trigger world.tasks.contains_key(p), world.tasks.contains_key(q)]
        world.tasks.contains_key(p) && world.tasks.contains_key(q) && p != q
            ==> world.tasks[p].id != world.tasks[q].id
    &&& forall|path: Parts| #[trigger]
        world.file.state@.contains(path) ==> is_output(book, path)
}

/// The book is true of the world: of its files, of the compressions that run and of the export.
#[verifier::opaque]
pub open spec fn is_book<H>(world: World<H>, book: Seq<Entry>, older: int) -> bool {
    &&& is_ledger(world, book, older)
    &&& forall|path: Parts| #[trigger]
        world.tasks.contains_key(path) ==> is_awaited(world, world.tasks[path])
    &&& world.export matches Some(export) ==> is_exporting(world, export, book)
}

/// No two files of a book share a name, before compression or after it.
proof fn names_are_apart(storage: Storage, book: Seq<Entry>, j: int, k: int)
    requires
        in_order(storage, book),
        0 <= j < book.len(),
        0 <= k < book.len(),
    ensures
        j != k ==> book[j].file.path@ != book[k].file.path@,
        j != k ==> compressed_path(book[j].file.path@) != compressed_path(book[k].file.path@),
        book[j].file.path@ != compressed_path(book[k].file.path@),
        j < k ==> path_lt(
            compressed_path(book[j].file.path@),
            compressed_path(book[k].file.path@),
        ),
{
    let a = book[j].file;
    let b = book[k].file;
    new_file_is_uncompressed(storage, a);
    new_file_is_uncompressed(storage, b);
    compression_appends_suffix(b.path@);
    assert(log().len() == 3 && gz().len() == 2);
    if j < k {
        files_are_listed_by_age(storage, a, b);
    } else if k < j {
        files_are_listed_by_age(storage, b, a);
    }
    path_lt_irreflexive(a.path@);
    path_lt_irreflexive(compressed_path(a.path@));
}

/// A file that was opened later than all others comes last.
proof fn order_grows(storage: Storage, book: Seq<Entry>, entry: Entry)
    requires
        in_order(storage, book),
        book.len() > 0,
        entry.file.is_for(storage),
        has_four_digits(entry.file),
        book.last().file.began.total_micros() < entry.file.began.total_micros(),
    ensures
        in_order(storage, book.push(entry)),
{
    let next = book.push(entry);
    let last = book.len() - 1;
    assert forall|j: int, k: int|
        #![trigger next[j], next[k]]
        0 <= j < k < next.len() implies next[j].file.began.total_micros()
        < next[k].file.began.total_micros() by {
        assert(next[j] == book[j]);
        if k < book.len() {
            assert(next[k] == book[k]);
        } else if j < last {
            assert(book[j].file.began.total_micros() < book[last].file.began.total_micros());
        }
    }
    assert forall|k: int| 0 <= k < next.len() implies (#[trigger] next[k]).file.is_for(storage)
        && has_four_digits(next[k].file) by {
        if k < book.len() {
            assert(next[k] == book[k]);
        }
    }
}

/// A write leaves the completed files as they are.
proof fn accounted_after_write<H>(
    before: World<H>,
    book: Seq<Entry>,
    older: int,
    bytes: Seq<u8>,
    written: usize,
    after: World<H>,
    k: int,
)
    requires
        is_ledger(before, book, older),
        happens(before, Event::Write { bytes, written }, after),
        0 <= k < book.len() - 1,
    ensures
        is_accounted(after, book[k], older <= k),
{
    reveal(happens);
    let last = book.len() - 1;
    names_are_apart(before.file.storage, book, k, last);
    names_are_apart(before.file.storage, book, last, k);
    assert(is_accounted(before, book[k], older <= k));
}

/// A write lengthens what the current file holds.
proof fn book_after_write<H>(
    before: World<H>,
    book: Seq<Entry>,
    older: int,
    bytes: Seq<u8>,
    written: usize,
    after: World<H>,
) -> (next: Seq<Entry>)
    requires
        is_book(before, book, older),
        happens(before, Event::Write { bytes, written }, after),
    ensures
        is_book(after, next, older),
        extends(book, next),
        next.len() == book.len(),
{
    reveal(happens);
    reveal(is_book);
    let last = book.len() - 1;
    let data = book.last().data + bytes;
    let entry = Entry { file: book.last().file, data, packed: None };
    let next = book.update(last, entry);
    let storage = before.file.storage;
    assert(in_order(storage, next));
    assert forall|k: int| 0 <= k < last implies is_accounted(
        after,
        #[trigger] next[k],
        older <= k,
    ) by {
        assert(next[k] == book[k]);
        accounted_after_write(before, book, older, bytes, written, after, k);
    }
    assert forall|path: Parts| #[trigger] after.tasks.contains_key(path) implies is_input(
        next,
        path,
    ) && after.tasks[path].id.0 < after.file.work.next() && is_awaited(
        after,
        after.tasks[path],
    ) by {
        assert(before.tasks.contains_key(path));
        let k = choose|k: int| 0 <= k < last && (#[trigger] book[k]).file.path@ == path;
        assert(next[k] == book[k]);
    }
    assert forall|path: Parts| #[trigger] after.file.state@.contains(path) implies is_output(
        next,
        path,
    ) by {
        assert(before.file.state@.contains(path));
        let k = choose|k: int|
            0 <= k < last && compressed_path((#[trigger] book[k]).file.path@) == path;
        assert(next[k] == book[k]);
    }
    let old_tail = book.skip(older);
    let new_tail = next.skip(older);
    assert(new_tail.drop_last() =~= old_tail.drop_last());
    assert(new_tail.last() == entry);
    assert(after.accepted =~= all_data(new_tail));
    next
}

/// The later book goes on where the earlier one ends: what it says of completed files stays.
pub open spec fn extends(book: Seq<Entry>, next: Seq<Entry>) -> bool {
    &&& 0 < book.len() <= next.len()
    &&& forall|k: int|
        0 <= k < book.len() - 1 ==> (#[trigger] next[k]).file == book[k].file && next[k].data
            == book[k].data && (book[k].packed is Some ==> next[k] == book[k])
    &&& next[book.len() - 1].file == book.last().file
}

/// The book once a rotation is complete: the current file is completed, and another follows it.
spec fn book_after_turn<H>(book: Seq<Entry>, turn: Turn<H>) -> Seq<Entry> {
    book.push(Entry { file: turn.next, data: Seq::empty(), packed: None })
}

/// The completed files are accounted for once another is open.
proof fn accounted_after_turn<H>(
    before: World<H>,
    book: Seq<Entry>,
    older: int,
    turn: Turn<H>,
    after: World<H>,
    k: int,
)
    requires
        is_ledger(before, book, older),
        is_turn(before, turn),
        in_order(before.file.storage, book_after_turn(book, turn)),
        !before.file.state@.contains(compressed_path(before.file.current.path@)),
        after.file.state == before.file.state,
        after.disk == disk_after(before, turn),
        after.tasks == tasks_after(before, turn),
        0 <= k < book.len(),
    ensures
        is_accounted(after, book[k], older <= k),
{
    let next = book_after_turn(book, turn);
    let last = book.len() - 1;
    let storage = before.file.storage;
    assert(next[k] == book[k]);
    assert(next[last + 1].file == turn.next);
    names_are_apart(storage, next, k, last + 1);
    names_are_apart(storage, next, last + 1, k);
    if k < last {
        names_are_apart(storage, book, k, last);
        assert(is_accounted(before, book[k], older <= k));
    } else {
        assert(before.file.current.path@ == book[k].file.path@);
    }
}

proof fn ledger_after_turn<H>(
    before: World<H>,
    book: Seq<Entry>,
    older: int,
    turn: Turn<H>,
    after: World<H>,
)
    requires
        is_book(before, book, older),
        before.export is None,
        is_turn(before, turn),
        after.file.is_valid(),
        after.file == (RotatingFile {
            current: turn.next.as_current(),
            work: after.file.work,
            ..before.file
        }),
        after.file.work.next() == before.file.work.next() + 1,
        after.disk == disk_after(before, turn),
        after.tasks == tasks_after(before, turn),
        after.accepted == before.accepted,
    ensures
        is_ledger(after, book_after_turn(book, turn), older),
        extends(book, book_after_turn(book, turn)),
{
    reveal(is_book);
    let next = book_after_turn(book, turn);
    let entry = next.last();
    let last = book.len() - 1;
    let storage = before.file.storage;
    let added = before.file.current.path@;
    order_grows(storage, book, entry);
    assert(added == book[last].file.path@);
    assert(!before.tasks.contains_key(added)) by {
        if before.tasks.contains_key(added) {
            let k = choose|k: int| 0 <= k < last && (#[trigger] book[k]).file.path@ == added;
            names_are_apart(storage, book, k, last);
        }
    }
    assert(!before.file.state@.contains(compressed_path(added))) by {
        if before.file.state@.contains(compressed_path(added)) {
            let k = choose|k: int|
                0 <= k < last && compressed_path((#[trigger] book[k]).file.path@)
                    == compressed_path(added);
            names_are_apart(storage, book, k, last);
        }
    }
    assert forall|k: int| 0 <= k < next.len() - 1 implies is_accounted(
        after,
        #[trigger] next[k],
        older <= k,
    ) by {
        assert(next[k] == book[k]);
        accounted_after_turn(before, book, older, turn, after, k);
    }
    assert forall|path: Parts| #[trigger] after.tasks.contains_key(path) implies is_input(
        next,
        path,
    ) && after.tasks[path].id.0 < after.file.work.next() by {
        if path == added {
            assert(next[last].file.path@ == path);
        } else {
            assert(before.tasks.contains_key(path));
            let k = choose|k: int| 0 <= k < last && (#[trigger] book[k]).file.path@ == path;
            assert(next[k] == book[k]);
        }
    }
    assert forall|p: Parts, q: Parts|
        #![trigger after.tasks.contains_key(p), after.tasks.contains_key(q)]
        after.tasks.contains_key(p) && after.tasks.contains_key(q) && p
            != q implies after.tasks[p].id != after.tasks[q].id by {
        if p != added {
            assert(before.tasks.contains_key(p));
        }
        if q != added {
            assert(before.tasks.contains_key(q));
        }
    }
    assert forall|path: Parts| #[trigger] after.file.state@.contains(path) implies is_output(
        next,
        path,
    ) by {
        assert(before.file.state@.contains(path));
        let k = choose|k: int|
            0 <= k < last && compressed_path((#[trigger] book[k]).file.path@) == path;
        assert(next[k] == book[k]);
    }
    assert(next.skip(older).drop_last() =~= book.skip(older));
    assert(after.accepted =~= all_data(next.skip(older)));
}

/// A rotation adds a file to the book.
proof fn book_after_rotation<H>(
    before: World<H>,
    book: Seq<Entry>,
    older: int,
    turn: Turn<H>,
    after: World<H>,
)
    requires
        is_book(before, book, older),
        happens(before, Event::Rotate(turn), after),
    ensures
        is_book(after, book_after_turn(book, turn), older),
        extends(book, book_after_turn(book, turn)),
{
    reveal(happens);
    reveal(is_book);
    ledger_after_turn(before, book, older, turn, after);
    let entry = (WorkId(before.file.work.next()), turn.handle);
    assert(after.file.work@ == before.file.work@.push(entry));
    assert forall|path: Parts| #[trigger] after.tasks.contains_key(path) implies is_awaited(
        after,
        after.tasks[path],
    ) by {
        if path == before.file.current.path@ {
            assert(after.file.work@[before.file.work@.len() as int] == entry);
        } else {
            assert(before.tasks.contains_key(path));
            let task = before.tasks[path];
            let i = choose|i: int|
                0 <= i < before.file.work@.len() && before.file.work@[i] == (task.id, task.handle);
            assert(after.file.work@[i] == (task.id, task.handle));
        }
    }
}

/// A compression that runs when its handle is taken over is waited for.
proof fn taken_over_is_awaited<H>(
    running: Seq<(WorkId, H)>,
    export: Export<H>,
    id: WorkId,
    handle: H,
)
    requires
        is_waiting(export, handles_of(running)),
        running.contains((id, handle)),
    ensures
        export.waiting@.contains(handle) || export.step == ExportStep::Join(handle),
{
    let handles = handles_of(running);
    let i = choose|i: int| 0 <= i < running.len() && running[i] == (id, handle);
    assert(handles[i] == handle);
    if i < handles.len() - 1 {
        assert(export.waiting@[i] == handle);
    }
}

/// What the rotation of an export leaves: the next file is open, and nothing runs.
proof fn file_after_export_begins<H>(
    before: World<H>,
    turn: Turn<H>,
    rotating: Export<H>,
    next: Export<H>,
    after: World<H>,
)
    requires
        happens(before, Event::BeginExport { turn, rotating, next }, after),
    ensures
        after.file == (RotatingFile {
            current: turn.next.as_current(),
            work: after.file.work,
            ..before.file
        }),
        after.file.work.next() == before.file.work.next() + 1,
        turn.queued.work@ == before.file.work@.push(
            (WorkId(before.file.work.next()), turn.handle),
        ),
        is_waiting(next, handles_of(turn.queued.work@)),
{
    reveal(happens);
}

/// An export begins with a rotation and waits for all compressions that run.
proof fn book_after_export_begins<H>(
    before: World<H>,
    book: Seq<Entry>,
    older: int,
    turn: Turn<H>,
    rotating: Export<H>,
    next: Export<H>,
    after: World<H>,
)
    requires
        is_book(before, book, older),
        happens(before, Event::BeginExport { turn, rotating, next }, after),
    ensures
        is_book(after, book_after_turn(book, turn), older),
        extends(book, book_after_turn(book, turn)),
{
    reveal(happens);
    reveal(is_book);
    file_after_export_begins(before, turn, rotating, next, after);
    ledger_after_turn(before, book, older, turn, after);
    let running = turn.queued.work@;
    let entry = (WorkId(before.file.work.next()), turn.handle);
    assert forall|path: Parts| #[trigger] after.tasks.contains_key(path) implies is_awaited(
        after,
        after.tasks[path],
    ) by {
        let task = after.tasks[path];
        if path == before.file.current.path@ {
            assert(running[before.file.work@.len() as int] == entry);
        } else {
            assert(before.tasks.contains_key(path));
            let i = choose|i: int|
                0 <= i < before.file.work@.len() && before.file.work@[i] == (task.id, task.handle);
            assert(running[i] == (task.id, task.handle));
        }
        taken_over_is_awaited(running, next, task.id, task.handle);
    }
    assert(book_after_turn(book, turn).last().data.len() == 0);
}

/// Another piece that is read follows those before it.
proof fn another_piece_is_read(pieces: Seq<Seq<u8>>, piece: Seq<u8>, data: Seq<u8>)
    requires
        are_read(pieces, data),
        is_next_piece(piece, data, pieces),
    ensures
        are_read(pieces.push(piece), data),
        piece.len() == 0 ==> joined_texts(pieces) == data,
{
    let from = joined_texts(pieces).len() as int;
    assert(pieces.push(piece).drop_last() =~= pieces);
    assert(joined_texts(pieces.push(piece)) =~= data.take(from + piece.len()));
    if piece.len() == 0 {
        assert(data.take(from) =~= data);
    }
}

/// A step of a compression brings its file on.
proof fn packing_goes_on(
    before: Compression,
    entry: Entry,
    disk: Map<Parts, Seq<u8>>,
    piece: Vec<u8>,
    after: Compression,
)
    requires
        is_packing(before, entry, disk),
        before.in_path@ != before.out_path@,
        before.step !is Done,
        before.step is Read ==> is_next_piece(
            piece@,
            disk[before.in_path@],
            pieces_of(before.step->Read_0),
        ) && read_step(before, Ok(piece), Ok(after)),
        before.step !is Read ==> compress_step(before, Ok(()), Ok(after)),
    ensures
        is_packing(after, entry, on_disk(before, disk)),
{
    let output = before.out_path@;
    let held = on_disk(before, disk)[output];
    match before.step {
        CompressStep::OpenOutput => {
            assert(joined_texts(Seq::<Seq<u8>>::empty()) =~= entry.data.take(0));
            assert(held == Seq::<u8>::empty());
        },
        CompressStep::Read(encoder) => {
            another_piece_is_read(pieces_of(encoder), piece@, entry.data);
        },
        CompressStep::Flush(encoder, out) => {
            assert(held + after.step->Finish_0@ == gzip_bytes(pieces_of(encoder)));
        },
        _ => {},
    }
}

/// A compression under way leaves all other files as they are.
proof fn book_after_compression_step<H>(
    before: World<H>,
    book: Seq<Entry>,
    older: int,
    path: Parts,
    piece: Vec<u8>,
    following: Compression,
    after: World<H>,
)
    requires
        is_book(before, book, older),
        happens(before, Event::Compress { path, piece, following }, after),
    ensures
        is_book(after, book, older),
{
    reveal(happens);
    reveal(is_book);
    let last = book.len() - 1;
    let storage = before.file.storage;
    let i = choose|i: int| 0 <= i < last && (#[trigger] book[i]).file.path@ == path;
    let compression = before.tasks[path].compression;
    assert(is_accounted(before, book[i], older <= i));
    names_are_apart(storage, book, i, i);
    packing_goes_on(compression, book[i], before.disk, piece, following);
    names_are_apart(storage, book, last, i);
    assert forall|k: int| 0 <= k < last implies is_accounted(
        after,
        #[trigger] book[k],
        older <= k,
    ) by {
        assert(is_accounted(before, book[k], older <= k));
        names_are_apart(storage, book, k, i);
        names_are_apart(storage, book, i, k);
    }
    assert forall|other: Parts| #[trigger] after.tasks.contains_key(other) implies is_input(
        book,
        other,
    ) && after.tasks[other].id.0 < after.file.work.next() && is_awaited(
        after,
        after.tasks[other],
    ) by {
        assert(before.tasks.contains_key(other));
    }
    assert forall|p: Parts, q: Parts|
        #![trigger after.tasks.contains_key(p), after.tasks.contains_key(q)]
        after.tasks.contains_key(p) && after.tasks.contains_key(q) && p
            != q implies after.tasks[p].id != after.tasks[q].id by {
        assert(before.tasks.contains_key(p) && before.tasks.contains_key(q));
    }
}

/// To forget a piece of work is to keep the others.
proof fn others_are_kept<H>(
    before: Seq<(WorkId, H)>,
    id: WorkId,
    after: Seq<(WorkId, H)>,
    other: (WorkId, H),
)
    requires
        forgets(before, id, after),
        before.contains(other),
        other.0 != id,
    ensures
        after.contains(other),
{
    let j = choose|j: int| 0 <= j < before.len() && before[j] == other;
    if exists|n: int| 0 <= n < before.len() && (#[trigger] before[n]).0 == id {
        let n = choose|n: int| 0 <= n < before.len() && (#[trigger] before[n]).0 == id;
        assert(after == before.remove(n));
        if j < n {
            assert(after[j] == other);
        } else {
            assert(after[j - 1] == other);
        }
    }
}

/// What was written does not depend on what has been compressed.
proof fn same_data(a: Seq<Entry>, b: Seq<Entry>)
    requires
        a.len() == b.len(),
        forall|k: int| 0 <= k < a.len() ==> (#[trigger] a[k]).data == b[k].data,
    ensures
        all_data(a) == all_data(b),
    decreases a.len(),
{
    if a.len() > 0 {
        assert forall|k: int| 0 <= k < a.drop_last().len() implies (
        #[trigger] a.drop_last()[k]).data == b.drop_last()[k].data by {
            assert(a[k].data == b[k].data);
        }
        same_data(a.drop_last(), b.drop_last());
        assert(a[a.len() - 1].data == b[a.len() - 1].data);
    }
}

/// The book once the compression of one of its files is recorded.
spec fn book_with_packed(book: Seq<Entry>, i: int, packed: Seq<u8>) -> Seq<Entry> {
    book.update(i, Entry { packed: Some(packed), ..book[i] })
}

/// The files of a book are the same once one of them is compressed.
proof fn packed_book_has_the_same_files(
    storage: Storage,
    book: Seq<Entry>,
    older: int,
    i: int,
    packed: Seq<u8>,
)
    requires
        0 <= i < book.len() - 1,
        0 <= older < book.len(),
        in_order(storage, book),
        book[i].packed is None,
    ensures
        ({
            let next = book_with_packed(book, i, packed);
            &&& in_order(storage, next)
            &&& extends(book, next)
            &&& next.len() == book.len()
            &&& next.last() == book.last()
            &&& all_data(next.skip(older)) == all_data(book.skip(older))
            &&& forall|path: Parts| #[trigger] is_input(book, path) ==> is_input(next, path)
            &&& forall|path: Parts| #[trigger] is_output(book, path) ==> is_output(next, path)
        }),
{
    let next = book_with_packed(book, i, packed);
    assert forall|k: int| 0 <= k < next.len() implies (#[trigger] next[k]).file == book[k].file
        && next[k].data == book[k].data by {}
    assert(in_order(storage, next)) by {
        assert forall|j: int, k: int|
            #![trigger next[j], next[k]]
            0 <= j < k < next.len() implies next[j].file.began.total_micros()
            < next[k].file.began.total_micros() by {
            assert(book[j].file.began.total_micros() < book[k].file.began.total_micros());
        }
        assert forall|k: int| 0 <= k < next.len() implies (#[trigger] next[k]).file.is_for(storage)
            && has_four_digits(next[k].file) by {
            assert(book[k].file.is_for(storage));
        }
    }
    let a = next.skip(older);
    let b = book.skip(older);
    assert forall|k: int| 0 <= k < a.len() implies (#[trigger] a[k]).data == b[k].data by {
        assert(next[older + k].data == book[older + k].data);
    }
    same_data(a, b);
    assert forall|path: Parts| #[trigger] is_input(book, path) implies is_input(next, path) by {
        let k = choose|k: int|
            0 <= k < book.len() - 1 && (#[trigger] book[k]).file.path@ == path;
        assert(next[k].file == book[k].file);
    }
    assert forall|path: Parts| #[trigger] is_output(book, path) implies is_output(next, path) by {
        let k = choose|k: int|
            0 <= k < book.len() - 1 && compressed_path((#[trigger] book[k]).file.path@) == path;
        assert(next[k].file == book[k].file);
    }
}

/// A compression that is recorded lists its file.
proof fn book_after_record<H>(
    before: World<H>,
    book: Seq<Entry>,
    older: int,
    path: Parts,
    after: World<H>,
) -> (next: Seq<Entry>)
    requires
        is_book(before, book, older),
        happens(before, Event::Record(path), after),
    ensures
        is_book(after, next, older),
        extends(book, next),
        next.len() == book.len(),
{
    reveal(happens);
    reveal(is_book);
    let last = book.len() - 1;
    let storage = before.file.storage;
    let i = choose|i: int| 0 <= i < last && (#[trigger] book[i]).file.path@ == path;
    let task = before.tasks[path];
    let packed = before.disk[task.compression.out_path@];
    let next = book_with_packed(book, i, packed);
    assert(is_accounted(before, book[i], older <= i));
    packed_book_has_the_same_files(storage, book, older, i, packed);
    assert forall|k: int| 0 <= k < last implies is_accounted(
        after,
        #[trigger] next[k],
        older <= k,
    ) by {
        assert(is_accounted(before, book[k], older <= k));
        names_are_apart(storage, book, k, i);
        names_are_apart(storage, book, i, k);
        if k != i {
            assert(next[k] == book[k]);
        }
    }
    assert forall|other: Parts| #[trigger] after.file.state@.contains(other) implies is_output(
        next,
        other,
    ) by {
        if other == task.compression.out_path@ {
            assert(compressed_path(next[i].file.path@) == other);
        } else {
            assert(before.file.state@.contains(other));
            assert(is_output(book, other));
        }
    }
    assert forall|other: Parts| #[trigger] after.tasks.contains_key(other) implies is_input(
        next,
        other,
    ) && after.tasks[other].id.0 < after.file.work.next() && is_awaited(
        after,
        after.tasks[other],
    ) by {
        assert(before.tasks.contains_key(other) && before.tasks.contains_key(path));
        assert(is_input(book, other));
        if before.export is None {
            let kept = before.tasks[other];
            others_are_kept(
                before.file.work@,
                task.id,
                after.file.work@,
                (kept.id, kept.handle),
            );
        }
    }
    assert forall|p: Parts, q: Parts|
        #![trigger after.tasks.contains_key(p), after.tasks.contains_key(q)]
        after.tasks.contains_key(p) && after.tasks.contains_key(q) && p
            != q implies after.tasks[p].id != after.tasks[q].id by {
        assert(before.tasks.contains_key(p) && before.tasks.contains_key(q));
    }
    next
}

/// When nothing is being compressed the listing holds all completed files, oldest first.
proof fn listing_is_the_book<H>(world: World<H>, book: Seq<Entry>, older: int)
    requires
        is_ledger(world, book, older),
        forall|path: Parts| !#[trigger] world.tasks.contains_key(path),
    ensures
        world.file.state@ == Seq::new(
            (book.len() - 1) as nat,
            |k: int| compressed_path(book[k].file.path@),
        ),
{
    let last = book.len() - 1;
    let names = Seq::new(last as nat, |k: int| compressed_path(book[k].file.path@));
    assert forall|j: int, k: int|
        #![trigger names[j], names[k]]
        0 <= j < k < names.len() implies path_lt(names[j], names[k]) by {
        names_are_apart(world.file.storage, book, j, k);
    }
    assert(is_listing(names));
    assert forall|path: Parts| world.file.state@.contains(path) <==> names.contains(path) by {
        if world.file.state@.contains(path) {
            let k = choose|k: int|
                0 <= k < last && compressed_path((#[trigger] book[k]).file.path@) == path;
            assert(names[k] == path);
        }
        if names.contains(path) {
            let k = choose|k: int| 0 <= k < names.len() && names[k] == path;
            assert(is_accounted(world, book[k], older <= k));
        }
    }
    listing_is_unique(world.file.state@, names);
}

/// The compression that has ended need not be waited for.
proof fn book_after_join<H>(
    before: World<H>,
    book: Seq<Entry>,
    older: int,
    next: Export<H>,
    after: World<H>,
)
    requires
        is_book(before, book, older),
        happens(before, Event::Join(next), after),
    ensures
        is_book(after, book, older),
{
    reveal(happens);
    reveal(is_book);
    let export = before.export->0;
    assert forall|k: int| 0 <= k < book.len() - 1 implies is_accounted(
        after,
        #[trigger] book[k],
        older <= k,
    ) by {
        assert(is_accounted(before, book[k], older <= k));
    }
    assert forall|path: Parts| #[trigger] after.tasks.contains_key(path) implies is_awaited(
        after,
        after.tasks[path],
    ) by {
        assert(before.tasks.contains_key(path));
        let handle = before.tasks[path].handle;
        let handles = export.waiting@;
        let i = choose|i: int| 0 <= i < handles.len() && handles[i] == handle;
        if i < handles.len() - 1 {
            assert(next.waiting@[i] == handle);
        }
    }
}

/// A change to the output file of the export leaves the log files as they are.
proof fn output_is_apart<H>(
    before: World<H>,
    book: Seq<Entry>,
    older: int,
    dest: Parts,
    contents: Seq<u8>,
    after: World<H>,
)
    requires
        is_ledger(before, book, older),
        forall|path: Parts| !#[trigger] before.tasks.contains_key(path),
        !is_output(book, dest),
        dest != book.last().file.path@,
        after.file == before.file,
        after.tasks == before.tasks,
        after.accepted == before.accepted,
        after.disk == before.disk.insert(dest, contents),
    ensures
        is_ledger(after, book, older),
{
    assert forall|k: int| 0 <= k < book.len() - 1 implies is_accounted(
        after,
        #[trigger] book[k],
        older <= k,
    ) by {
        assert(is_accounted(before, book[k], older <= k));
        assert(compressed_path(book[k].file.path@) != dest);
    }
}

/// The output file is created when nothing is being compressed any more.
proof fn book_after_creation<H>(
    before: World<H>,
    book: Seq<Entry>,
    older: int,
    next: Export<H>,
    after: World<H>,
)
    requires
        is_book(before, book, older),
        happens(before, Event::CreateOutput(next), after),
    ensures
        is_book(after, book, older),
{
    reveal(happens);
    reveal(is_book);
    let export = before.export->0;
    let dest = export.dest@;
    assert forall|path: Parts| !#[trigger] before.tasks.contains_key(path) by {
        if before.tasks.contains_key(path) {
            assert(is_awaited(before, before.tasks[path]));
        }
    }
    if is_output(book, dest) {
        let k = choose|k: int|
            0 <= k < book.len() - 1 && compressed_path((#[trigger] book[k]).file.path@) == dest;
        assert(is_accounted(before, book[k], older <= k));
    }
    output_is_apart(before, book, older, dest, Seq::empty(), after);
    listing_is_the_book(before, book, older);
    assert(paths_of(next.files@).len() == next.files@.len());
    assert(book.take(0).len() == 0);
}

/// The next input file is the compressed form of the next file of the book.
proof fn next_input_is_packed<H>(
    world: World<H>,
    export: Export<H>,
    book: Seq<Entry>,
    older: int,
)
    requires
        is_ledger(world, book, older),
        is_copying(world, export, book),
        export.files_copied < export.files@.len(),
    ensures
        world.disk[export.files@[export.files_copied as int]@]
            == book[export.files_copied as int].packed->0,
{
    let k = export.files_copied as int;
    listing_is_the_book(world, book, older);
    assert(paths_of(export.files@)[k] == export.files@[k]@);
    assert(export.files@[k]@ == compressed_path(book[k].file.path@));
    assert(is_accounted(world, book[k], older <= k));
}

/// Another file copied is another file of the book.
proof fn copied_grows(book: Seq<Entry>, k: int)
    requires
        0 <= k < book.len(),
    ensures
        all_packed(book.take(k + 1)) == all_packed(book.take(k)) + book[k].packed->0,
{
    assert(book.take(k + 1).drop_last() =~= book.take(k));
}

/// The next compressed file is appended to the output file.
proof fn book_after_copy<H>(
    before: World<H>,
    book: Seq<Entry>,
    older: int,
    opened: Export<H>,
    size: u64,
    next: Export<H>,
    after: World<H>,
)
    requires
        is_book(before, book, older),
        happens(before, Event::Copy { opened, size, next }, after),
    ensures
        is_book(after, book, older),
{
    reveal(happens);
    reveal(is_book);
    let export = before.export->0;
    let dest = export.dest@;
    let k = export.files_copied as int;
    next_input_is_packed(before, export, book, older);
    output_is_apart(before, book, older, dest, before.disk[dest] + book[k].packed->0, after);
    copied_grows(book, k);
}

/// The export alone does not change the book.
proof fn same_disk_same_book<H>(before: World<H>, book: Seq<Entry>, older: int, after: World<H>)
    requires
        is_ledger(before, book, older),
        after == (World { export: after.export, ..before }),
    ensures
        is_ledger(after, book, older),
{
    assert forall|k: int| 0 <= k < book.len() - 1 implies is_accounted(
        after,
        #[trigger] book[k],
        older <= k,
    ) by {
        assert(is_accounted(before, book[k], older <= k));
    }
}

/// The output file is complete when all files have been copied.
proof fn book_after_completion<H>(
    before: World<H>,
    book: Seq<Entry>,
    older: int,
    next: Export<H>,
    after: World<H>,
)
    requires
        is_book(before, book, older),
        happens(before, Event::Complete(next), after),
    ensures
        is_book(after, book, older),
{
    reveal(happens);
    reveal(is_book);
    same_disk_same_book(before, book, older, after);
}

/// Nothing runs when an export has ended.
proof fn book_after_export_ends<H>(
    before: World<H>,
    book: Seq<Entry>,
    older: int,
    after: World<H>,
)
    requires
        is_book(before, book, older),
        happens(before, Event::EndExport, after),
    ensures
        is_book(after, book, older),
{
    reveal(happens);
    reveal(is_book);
    same_disk_same_book(before, book, older, after);
}

/// Where no export was under way and one is, it has just begun.
proof fn export_begins_with_a_rotation<H>(before: World<H>, event: Event<H>, after: World<H>)
    requires
        happens(before, event, after),
        before.export is None,
        after.export is Some,
    ensures
        event is BeginExport,
{
    reveal(happens);
}

/// Every event keeps a book of the world.
proof fn book_goes_on<H>(
    before: World<H>,
    book: Seq<Entry>,
    older: int,
    event: Event<H>,
    after: World<H>,
) -> (next: Seq<Entry>)
    requires
        is_book(before, book, older),
        happens(before, event, after),
    ensures
        is_book(after, next, older),
        extends(book, next),
        before.export is None && after.export is Some ==> book.len() < next.len(),
{
    if before.export is None && after.export is Some {
        export_begins_with_a_rotation(before, event, after);
    }
    assert(book.len() > 0) by {
        reveal(is_book);
    }
    match event {
        Event::Write { bytes, written } => {
            book_after_write(before, book, older, bytes, written, after)
        },
        Event::Rotate(turn) => {
            book_after_rotation(before, book, older, turn, after);
            book_after_turn(book, turn)
        },
        Event::Compress { path, piece, following } => {
            book_after_compression_step(before, book, older, path, piece, following, after);
            book
        },
        Event::Record(path) => {
            book_after_record(before, book, older, path, after)
        },
        Event::BeginExport { turn, rotating, next } => {
            book_after_export_begins(before, book, older, turn, rotating, next, after);
            book_after_turn(book, turn)
        },
        Event::Join(next) => {
            book_after_join(before, book, older, next, after);
            book
        },
        Event::CreateOutput(next) => {
            book_after_creation(before, book, older, next, after);
            book
        },
        Event::Copy { opened, size, next } => {
            book_after_copy(before, book, older, opened, size, next, after);
            book
        },
        Event::Complete(next) => {
            book_after_completion(before, book, older, next, after);
            book
        },
        Event::EndExport => {
            book_after_export_ends(before, book, older, after);
            book
        },
    }
}

proof fn extends_is_transitive(a: Seq<Entry>, b: Seq<Entry>, c: Seq<Entry>)
    requires
        extends(a, b),
        extends(b, c),
    ensures
        extends(a, c),
{
    assert forall|k: int| 0 <= k < a.len() - 1 implies (#[trigger] c[k]).file == a[k].file
        && c[k].data == a[k].data && (a[k].packed is Some ==> c[k] == a[k]) by {
        assert(b[k].file == a[k].file);
    }
    if b.len() > a.len() {
        assert(c[a.len() - 1].file == b[a.len() - 1].file);
    }
}

/// A book of one world goes on to any later one.
proof fn book_goes_on_to<H>(
    worlds: Seq<World<H>>,
    events: Seq<Event<H>>,
    book: Seq<Entry>,
    older: int,
    i: int,
    j: int,
) -> (next: Seq<Entry>)
    requires
        is_history(worlds, events),
        0 <= i <= j < worlds.len(),
        is_book(worlds[i], book, older),
    ensures
        is_book(worlds[j], next, older),
        extends(book, next),
        worlds[i].export is None && worlds[j].export is Some ==> book.len() < next.len(),
    decreases j - i,
{
    assert(book.len() > 0) by {
        reveal(is_book);
    }
    if i == j {
        book
    } else {
        let mid = book_goes_on_to(worlds, events, book, older, i, j - 1);
        assert(happens(worlds[j - 1], events[j - 1], worlds[j]));
        let next = book_goes_on(worlds[j - 1], mid, older, events[j - 1], worlds[j]);
        extends_is_transitive(book, mid, next);
        next
    }
}

/// The bytes are gzip streams, one after the other, of texts that make up the data.
pub open spec fn is_gzip_of(bytes: Seq<u8>, data: Seq<u8>) -> bool {
    exists|streams: Seq<Seq<u8>>, texts: Seq<Seq<u8>>|
        {
            &&& streams.len() == texts.len()
            &&& forall|k: int|
                0 <= k < streams.len() ==> is_stream(#[trigger] streams[k], texts[k])
            &&& #[trigger] joined_texts(streams) == bytes
            &&& #[trigger] joined_texts(texts) == data
        }
}

/// What was written to the files of a book, each as a text.
spec fn texts_of(book: Seq<Entry>) -> Seq<Seq<u8>> {
    Seq::new(book.len(), |k: int| book[k].data)
}

/// What the files of a book were compressed into.
spec fn streams_of(book: Seq<Entry>) -> Seq<Seq<u8>> {
    Seq::new(book.len(), |k: int| book[k].packed->0)
}

proof fn book_is_joined(book: Seq<Entry>)
    ensures
        joined_texts(streams_of(book)) == all_packed(book),
        joined_texts(texts_of(book)) == all_data(book),
    decreases book.len(),
{
    if book.len() > 0 {
        let rest = book.drop_last();
        book_is_joined(rest);
        assert(texts_of(book).drop_last() =~= texts_of(rest));
        assert(streams_of(book).drop_last() =~= streams_of(rest));
    }
}

/// The compressed files of a book are gzip streams of what was written.
proof fn book_is_gzip(book: Seq<Entry>)
    requires
        forall|k: int|
            0 <= k < book.len() ==> is_stream((#[trigger] book[k]).packed->0, book[k].data),
    ensures
        is_gzip_of(all_packed(book), all_data(book)),
{
    book_is_joined(book);
    let streams = streams_of(book);
    let texts = texts_of(book);
    assert forall|k: int| 0 <= k < streams.len() implies is_stream(
        #[trigger] streams[k],
        texts[k],
    ) by {
        assert(is_stream(book[k].packed->0, book[k].data));
    }
}

proof fn books_are_joined(a: Seq<Entry>, b: Seq<Entry>)
    ensures
        all_data(a + b) == all_data(a) + all_data(b),
        all_packed(a + b) == all_packed(a) + all_packed(b),
    decreases b.len(),
{
    if b.len() == 0 {
        assert(a + b =~= a);
        assert(all_data(a) + all_data(b) =~= all_data(a));
        assert(all_packed(a) + all_packed(b) =~= all_packed(a));
    } else {
        books_are_joined(a, b.drop_last());
        assert((a + b).drop_last() =~= a + b.drop_last());
        assert(all_data(a + b) =~= all_data(a) + all_data(b));
        assert(all_packed(a + b) =~= all_packed(a) + all_packed(b));
    }
}

/// The export is complete: its output file has been synced.
pub open spec fn is_exported<H>(world: World<H>) -> bool {
    world.export matches Some(export) && export.step is Done
}

/// The output file of the export.
pub open spec fn output<H>(world: World<H>) -> Seq<u8> {
    world.disk[world.export->0.dest@]
}

/// The completed files of a book.
spec fn completed(book: Seq<Entry>) -> Seq<Entry> {
    book.drop_last()
}

/// The file stands compressed on disk, as a gzip stream of what was written to it.
spec fn is_sealed(entry: Entry) -> bool {
    is_stream(entry.packed->0, entry.data) && entry.packed->0.len() >= 18
}

/// What a complete export has brought about.
proof fn export_of_the_book<H>(world: World<H>, book: Seq<Entry>, older: int)
    requires
        is_book(world, book, older),
        is_exported(world),
    ensures
        0 <= older <= completed(book).len(),
        output(world) == all_packed(completed(book)),
        world.export->0.bytes_copied == output(world).len(),
        world.accepted == all_data(completed(book).skip(older)),
        forall|k: int|
            0 <= k < completed(book).len() ==> (#[trigger] completed(book)[k]).packed is Some,
        forall|k: int|
            older <= k < completed(book).len() ==> is_sealed(#[trigger] completed(book)[k]),
        forall|path: Parts| !#[trigger] world.tasks.contains_key(path),
{
    reveal(is_book);
    let export = world.export->0;
    let done = completed(book);
    assert(book.take(export.files_copied as int) =~= done);
    let tail = book.skip(older);
    assert(tail.drop_last() =~= done.skip(older));
    assert(all_data(tail) =~= all_data(done.skip(older)));
    assert forall|k: int| 0 <= k < done.len() implies (#[trigger] done[k]).packed is Some by {
        assert(done[k] == book[k]);
        assert(is_accounted(world, book[k], older <= k));
    }
    assert forall|k: int| older <= k < done.len() implies is_sealed(#[trigger] done[k]) by {
        assert(done[k] == book[k]);
        assert(is_accounted(world, book[k], older <= k));
    }
}

/// A rotating file that has just been set up in an empty directory: one log file, with nothing
/// written to it.
pub open spec fn is_new<H>(world: World<H>) -> bool {
    let current = world.file.current;
    &&& world.file.is_valid()
    &&& world.file.state@ == Seq::<Parts>::empty()
    &&& has_four_digits(current.file())
    &&& world.disk.contains_key(current.path@)
    &&& world.disk[current.path@] == Seq::<u8>::empty()
    &&& forall|path: Parts| !#[trigger] world.tasks.contains_key(path)
    &&& world.export is None
    &&& world.accepted == Seq::<u8>::empty()
}

/// The book of a rotating file that has just been set up.
proof fn first_book<H>(world: World<H>) -> (book: Seq<Entry>)
    requires
        is_new(world),
    ensures
        is_book(world, book, 0),
{
    reveal(is_book);
    let data = Seq::<u8>::empty();
    let entry = Entry { file: world.file.current.file(), data, packed: None };
    let book = seq![entry];
    assert(book.skip(0) =~= book);
    assert(book.drop_last() =~= Seq::<Entry>::empty());
    assert(all_data(book) =~= data) by {
        reveal_with_fuel(all_data, 2);
    }
    book
}

/// An export holds everything that was written before it, the current file included, in the order
/// of writing: its output file is made of gzip streams, one after the other, of texts that together
/// are all that writes have accepted. This holds of a rotating file set up in an empty directory,
/// whatever its limits, whose clock moves on between rotations, as long as no file has had to be
/// deleted; years have four digits.
pub proof fn export_holds_all_that_was_written<H>(
    worlds: Seq<World<H>>,
    events: Seq<Event<H>>,
)
    requires
        is_history(worlds, events),
        is_new(worlds[0]),
        is_exported(worlds.last()),
    ensures
        is_gzip_of(output(worlds.last()), worlds.last().accepted),
        worlds.last().export->0.bytes_copied == output(worlds.last()).len(),
{
    let first = first_book(worlds[0]);
    let last = worlds.len() - 1;
    let book = book_goes_on_to(worlds, events, first, 0, 0, last);
    export_of_the_book(worlds[last], book, 0);
    let done = completed(book);
    assert(done.skip(0) =~= done);
    assert forall|k: int| 0 <= k < done.len() implies is_stream(
        (#[trigger] done[k]).packed->0,
        done[k].data,
    ) by {
        assert(is_sealed(done[k]));
    }
    book_is_gzip(done);
}

/// A complete export can only end.
proof fn complete_export_ends<H>(
    before: World<H>,
    book: Seq<Entry>,
    older: int,
    event: Event<H>,
    after: World<H>,
)
    requires
        is_book(before, book, older),
        is_exported(before),
        happens(before, event, after),
    ensures
        after.export is None,
{
    export_of_the_book(before, book, older);
    reveal(happens);
}

/// The files that follow those of an earlier book.
proof fn later_files(book: Seq<Entry>, next: Seq<Entry>, older: int) -> (between: Seq<Entry>)
    requires
        extends(book, next),
        0 <= older <= completed(book).len(),
        book.len() < next.len(),
        forall|k: int|
            0 <= k < completed(book).len() ==> (#[trigger] completed(book)[k]).packed is Some,
        forall|k: int|
            older <= k < completed(next).len() ==> is_sealed(#[trigger] completed(next)[k]),
    ensures
        completed(next) == completed(book) + between,
        completed(next).skip(older) == completed(book).skip(older) + between,
        forall|k: int|
            0 <= k < between.len() ==> is_stream(
                (#[trigger] between[k]).packed->0,
                between[k].data,
            ),
        all_packed(between).len() >= 18,
{
    let before = completed(book);
    let after = completed(next);
    let between = after.skip(before.len() as int);
    assert forall|k: int| 0 <= k < before.len() implies after[k] == before[k] by {
        assert(before[k].packed is Some);
        assert(next[k] == book[k]);
    }
    assert(after =~= before + between);
    assert(after.skip(older) =~= before.skip(older) + between);
    assert forall|k: int| 0 <= k < between.len() implies is_stream(
        (#[trigger] between[k]).packed->0,
        between[k].data,
    ) by {
        assert(is_sealed(after[before.len() + k]));
    }
    assert(is_sealed(after[after.len() - 1]));
    assert(between.last() == after[after.len() - 1]);
    between
}

/// An export begins with the bytes of the one before it, and the rest of it holds exactly what was
/// written in between: an export removes nothing and repeats nothing. This holds whatever the
/// limits and with a clock that moves on between rotations, as long as no file has had to be
/// deleted; years have four digits. What was found in the directory at first is of the same storage
/// and older.
pub proof fn export_goes_on_where_the_last_ended<H>(
    worlds: Seq<World<H>>,
    events: Seq<Event<H>>,
    book: Seq<Entry>,
    older: int,
    i: int,
    j: int,
)
    requires
        is_history(worlds, events),
        is_book(worlds[0], book, older),
        0 <= i < j < worlds.len(),
        is_exported(worlds[i]),
        is_exported(worlds[j]),
    ensures
        worlds[i].export->0.bytes_copied < worlds[j].export->0.bytes_copied,
        ({
            let first = output(worlds[i]);
            let second = output(worlds[j]);
            let before = worlds[i].accepted;
            let all = worlds[j].accepted;
            &&& first.len() <= second.len()
            &&& second.take(first.len() as int) == first
            &&& before.len() <= all.len()
            &&& all.take(before.len() as int) == before
            &&& is_gzip_of(second.skip(first.len() as int), all.skip(before.len() as int))
        }),
{
    let a = book_goes_on_to(worlds, events, book, older, 0, i);
    export_of_the_book(worlds[i], a, older);
    assert(happens(worlds[i], events[i], worlds[i + 1]));
    complete_export_ends(worlds[i], a, older, events[i], worlds[i + 1]);
    let mid = book_goes_on(worlds[i], a, older, events[i], worlds[i + 1]);
    let b = book_goes_on_to(worlds, events, mid, older, i + 1, j);
    export_of_the_book(worlds[j], b, older);
    extends_is_transitive(a, mid, b);
    let between = later_files(a, b, older);
    books_are_joined(completed(a), between);
    books_are_joined(completed(a).skip(older), between);
    book_is_gzip(between);
    let first = output(worlds[i]);
    let second = output(worlds[j]);
    let before = worlds[i].accepted;
    let all = worlds[j].accepted;
    assert(second.take(first.len() as int) =~= first);
    assert(second.skip(first.len() as int) =~= all_packed(between));
    assert(all.take(before.len() as int) =~= before);
    assert(all.skip(before.len() as int) =~= all_data(between));
}

/// What an event does to the current file: a write lengthens it, a rotation puts an empty one in
/// its place, and all else leaves it as it is. The limits never change.
proof fn current_file_goes_on<H>(
    before: World<H>,
    book: Seq<Entry>,
    older: int,
    event: Event<H>,
    after: World<H>,
)
    requires
        is_book(before, book, older),
        happens(before, event, after),
    ensures
        after.file.limits == before.file.limits,
        event matches Event::Write { bytes, written } ==> after.disk[after.file.current.path@]
            == before.disk[before.file.current.path@] + bytes && after.file.current.bytes_written
            == before.file.current.bytes_written + bytes.len() && written == bytes.len(),
        event !is Write && after.disk[after.file.current.path@].len() > 0
            ==> after.disk[after.file.current.path@] == before.disk[before.file.current.path@]
            && after.file.current.bytes_written == before.file.current.bytes_written,
        event !is Write && after.disk[after.file.current.path@].len() == 0
            ==> after.file.current.bytes_written == 0 || (after.file.current.bytes_written
            == before.file.current.bytes_written
            && before.disk[before.file.current.path@].len() == 0),
{
    reveal(happens);
    reveal(is_book);
    let last = book.len() - 1;
    match event {
        Event::Compress { path, piece, following } => {
            let i = choose|i: int| 0 <= i < last && (#[trigger] book[i]).file.path@ == path;
            assert(is_accounted(before, book[i], older <= i));
            names_are_apart(before.file.storage, book, last, i);
        },
        Event::BeginExport { turn, rotating, next } => {
            file_after_export_begins(before, turn, rotating, next, after);
        },
        _ => {},
    }
}

/// The current file is counted right: as many bytes count as it holds on disk. Every event keeps
/// it so, whatever the limits.
pub proof fn current_file_is_as_long_as_counted<H>(
    worlds: Seq<World<H>>,
    events: Seq<Event<H>>,
    book: Seq<Entry>,
    older: int,
    j: int,
)
    requires
        is_history(worlds, events),
        is_book(worlds[0], book, older),
        worlds[0].file.current.bytes_written == worlds[0].disk[worlds[0].file.current.path@].len(),
        0 <= j < worlds.len(),
    ensures
        worlds[j].file.current.bytes_written == worlds[j].disk[worlds[j].file.current.path@].len(),
    decreases j,
{
    if j > 0 {
        current_file_is_as_long_as_counted(worlds, events, book, older, j - 1);
        let mid = book_goes_on_to(worlds, events, book, older, 0, j - 1);
        assert(happens(worlds[j - 1], events[j - 1], worlds[j]));
        current_file_goes_on(worlds[j - 1], mid, older, events[j - 1], worlds[j]);
    }
}

/// The current file on disk stays within the size limit, unless the first write to it alone exceeds
/// the limit: it then holds what that write wrote and nothing more. This holds where every write
/// goes to an empty file, or to one that it found not to be due for rotation.
pub proof fn current_file_stays_within_its_limit<H>(
    worlds: Seq<World<H>>,
    events: Seq<Event<H>>,
    max_size: usize,
    j: int,
)
    requires
        is_history(worlds, events),
        is_new(worlds[0]),
        worlds[0].file.current.bytes_written == 0,
        worlds[0].file.limits.size == Some(max_size),
        forall|i: int|
            0 <= i < events.len() ==> ((#[trigger] events[i]) matches Event::Write {
                bytes,
                written,
            } ==> worlds[i].disk[worlds[i].file.current.path@].len() == 0 || exists|time: Timestamp|
                #[trigger] call_ensures(
                    Writing::start_at::<H>,
                    (&worlds[i].file, written, time),
                    Writing::Write,
                )),
        0 <= j < worlds.len(),
    ensures
        worlds[j].file.limits == worlds[0].file.limits,
        worlds[j].disk[worlds[j].file.current.path@].len() <= max_size || exists|i: int|
            0 <= i < j && (#[trigger] events[i]) is Write
                && worlds[i].disk[worlds[i].file.current.path@].len() == 0
                && worlds[j].disk[worlds[j].file.current.path@] == events[i]->bytes,
    decreases j,
{
    if j > 0 {
        current_file_stays_within_its_limit(worlds, events, max_size, j - 1);
        let first = first_book(worlds[0]);
        current_file_is_as_long_as_counted(worlds, events, first, 0, j - 1);
        let mid = book_goes_on_to(worlds, events, first, 0, 0, j - 1);
        let before = worlds[j - 1];
        let after = worlds[j];
        let event = events[j - 1];
        assert(happens(before, event, after));
        current_file_goes_on(before, mid, 0, event, after);
        let held = before.disk[before.file.current.path@];
        let holds = after.disk[after.file.current.path@];
        if event is Write {
            if held.len() == 0 {
                assert(holds =~= event->bytes);
            }
        } else if holds.len() > max_size {
            let i = choose|i: int|
                0 <= i < j - 1 && (#[trigger] events[i]) is Write
                    && worlds[i].disk[worlds[i].file.current.path@].len() == 0 && held
                    == events[i]->bytes;
            assert(events[i] is Write);
        }
    }
}

} // verus!
