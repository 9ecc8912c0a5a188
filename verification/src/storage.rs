//! Where log files are kept and how they are named.
use crate::calendar::{
    is_plain, is_stamp, is_stamp_char, numbered, numbered_stamp_is_plain, numbers_are_told_apart,
    plain_is_ascii, stamp_is_unique, stamps_run_with_time, with_number, FIRST_FOUR_DIGIT_SECOND,
    LAST_FOUR_DIGIT_SECOND,
};
use crate::errors::NewFileError;
use crate::order::{
    bytes_smaller_at, parent_part, part_lt, path_lt, paths_diverge_at, smaller_byte_decides, Parts,
};
use crate::path::{
    append_bytes, extension, joined, joined_ends_with, last_dot_unique, name_is_stem_and_extension,
    prefix_directory, stem, tail_start, tail_start_bounds, with_extension, LogPath, DOT, SEPARATOR,
};
use crate::time::{numbered_stamp, Timestamp};
use std::io;
use vstd::prelude::*;
use vstd::utf8::*;

verus! {

/// The suffix that will be present in any filename for a file that has been compressed.
pub const COMPRESSED_SUFFIX: &'static str = "gz";

/// The extension given to a file when it is compressed.
pub const COMPRESSED_EXT: &'static str = "log.gz";

/// The extension of a file that has not been compressed.
pub const UNCOMPRESSED_EXT: &'static str = "log";

/// The bytes of [`COMPRESSED_SUFFIX`].
pub open spec fn gz() -> Seq<u8> {
    seq![0x67u8, 0x7au8]
}

/// The bytes of [`UNCOMPRESSED_EXT`].
pub open spec fn log() -> Seq<u8> {
    seq![0x6cu8, 0x6fu8, 0x67u8]
}

/// The bytes of [`COMPRESSED_EXT`].
pub open spec fn log_gz() -> Seq<u8> {
    log().push(DOT) + gz()
}

/// [`COMPRESSED_SUFFIX`] as bytes.
pub fn compressed_suffix() -> (res: &'static [u8])
    ensures
        res@ == gz(),
{
    proof {
        reveal_strlit("gz");
        is_ascii_chars_encode_utf8("gz"@);
    }
    let res = COMPRESSED_SUFFIX.as_bytes();
    assert(res@ =~= gz());
    res
}

/// [`UNCOMPRESSED_EXT`] as bytes.
pub fn uncompressed_ext() -> (res: &'static [u8])
    ensures
        res@ == log(),
{
    proof {
        reveal_strlit("log");
        is_ascii_chars_encode_utf8("log"@);
    }
    let res = UNCOMPRESSED_EXT.as_bytes();
    assert(res@ =~= log());
    res
}

/// [`COMPRESSED_EXT`] as bytes.
pub fn compressed_ext() -> (res: &'static [u8])
    ensures
        res@ == log_gz(),
{
    proof {
        reveal_strlit("log.gz");
        is_ascii_chars_encode_utf8("log.gz"@);
    }
    let res = COMPRESSED_EXT.as_bytes();
    assert(res@ =~= log_gz());
    res
}

/// The name of the log file begun at the moment spelled `stamp`.
pub open spec fn log_file_name(prefix: Seq<char>, stamp: Seq<char>) -> Seq<u8> {
    encode_utf8(prefix) + encode_utf8(stamp).push(DOT) + log()
}

/// The name that a log file has once it is compressed.
pub open spec fn compressed_path(path: Parts) -> Parts {
    with_extension(path, log_gz())
}

/// Where log files are kept.
pub struct Storage {
    /// Root directory
    pub root_dir: LogPath,
    /// File name prefix, default to empty
    pub prefix: String,
}

/// A log file that is about to be opened.
pub struct NewFile {
    pub path: LogPath,
    pub began: Timestamp,
    /// Tells apart the files begun at one moment; the first has number 0.
    pub number: u64,
}

impl NewFile {
    /// The file has that spelling of its moment, with its number, for a name in that storage.
    pub open spec fn is_named(self, storage: Storage, stamp: Seq<char>) -> bool {
        &&& is_stamp(self.began.secs as int, self.began.nanos as int, stamp)
        &&& self.path@ == storage.log_path(numbered(stamp, self.number as int))
    }

    /// The file lies in that storage, named after the moment it was begun and its number.
    pub open spec fn is_for(self, storage: Storage) -> bool {
        &&& self.began.is_valid()
        &&& exists|stamp: Seq<char>| self.is_named(storage, stamp)
    }

    /// The file begun at the same moment with the next number.
    pub open spec fn is_followed_by(self, storage: Storage, next: NewFile) -> bool {
        &&& next.is_for(storage)
        &&& next.began == self.began
        &&& next.number == self.number + 1
    }

    /// The file to open in place of this one, whose name turned out to be taken: it has the next
    /// number. When there is none, the error is returned.
    pub fn next_name(self, storage: &Storage, error: io::Error) -> (res: Result<
        NewFile,
        NewFileError,
    >)
        requires
            self.is_for(*storage),
        ensures
            (match res {
                Ok(next) => self.number < u64::MAX && self.is_followed_by(*storage, next),
                Err(failure) => self.number == u64::MAX && failure == NewFileError::Open(
                    self.path,
                    error,
                ),
            }),
    {
        if self.number == u64::MAX {
            return Err(NewFileError::Open(self.path, error));
        }
        let stamp = self.began.stamp();
        let next = storage.numbered_file_at(self.began, stamp.as_str(), self.number + 1);
        assert(next.is_named(*storage, stamp@));
        Ok(next)
    }
}

impl Storage {
    /// The path of the log file begun at the moment spelled `stamp`.
    pub open spec fn log_path(self, stamp: Seq<char>) -> Parts {
        joined(self.root_dir@, log_file_name(self.prefix@, stamp))
    }

    pub fn new(root_dir: LogPath) -> (res: Storage)
        ensures
            res.root_dir == root_dir,
            res.prefix@ == Seq::<char>::empty(),
    {
        Storage { root_dir, prefix: String::new() }
    }

    pub fn prefix(self, prefix: String) -> (res: Storage)
        ensures
            res.root_dir == self.root_dir,
            res.prefix == prefix,
    {
        Storage { root_dir: self.root_dir, prefix }
    }

    /// The log file begun at a given moment, whose spelling is given too.
    pub fn new_file_at(&self, began: Timestamp, stamp: &str) -> (res: NewFile)
        ensures
            res.began == began,
            res.number == 0,
            res.path@ == self.log_path(stamp@),
    {
        let path = self.path_of(stamp);
        NewFile { path, began, number: 0 }
    }

    /// The log file begun at a given moment, whose spelling is given too, with a number.
    pub fn numbered_file_at(&self, began: Timestamp, stamp: &str, n: u64) -> (res: NewFile)
        ensures
            res.began == began,
            res.number == n,
            res.path@ == self.log_path(with_number(stamp@, n as int)),
    {
        let text = numbered_stamp(stamp, n);
        let path = self.path_of(text.as_str());
        NewFile { path, began, number: n }
    }

    /// The path of the log file whose name holds this spelling.
    fn path_of(&self, stamp: &str) -> (res: LogPath)
        ensures
            res@ == self.log_path(stamp@),
    {
        let mut name: Vec<u8> = Vec::new();
        append_bytes(&mut name, self.prefix.as_str().as_bytes());
        append_bytes(&mut name, stamp.as_bytes());
        name.push(DOT);
        append_bytes(&mut name, uncompressed_ext());
        assert(name@ =~= log_file_name(self.prefix@, stamp@));
        self.root_dir.join(name.as_slice())
    }

    /// The log file to open next, begun at a given moment and named after it.
    pub fn open_new_file_at(&self, began: Timestamp) -> (res: NewFile)
        requires
            began.is_valid(),
        ensures
            res.is_for(*self),
            res.began == began,
            res.number == 0,
    {
        let stamp = began.stamp();
        let res = self.new_file_at(began, stamp.as_str());
        assert(res.is_named(*self, stamp@));
        res
    }

    /// The log file to open next: begun now and named after this moment.
    pub fn open_new_file(&self) -> (res: NewFile)
        ensures
            res.is_for(*self),
            res.number == 0,
    {
        self.open_new_file_at(Timestamp::now())
    }
}

/// A path that ends in `.log` behind some text has the extension of an uncompressed file.
proof fn log_extension(front: Parts, name: Seq<u8>)
    requires
        name.len() > 0,
    ensures
        extension(front.push(name.push(DOT) + log())) == Some(log()),
{
    let full = name.push(DOT) + log();
    last_dot_unique(full, name.len() as int);
    assert(full.skip(name.len() as int + 1) =~= log());
    assert(front.push(full).last() == full);
    assert(full.len() > 2 && parent_part().len() == 2);
}

/// What a log file is named behind the prefix: the spelled moment, a dot and the extension.
spec fn stamped(stamp: Seq<char>) -> Seq<u8> {
    encode_utf8(stamp).push(DOT) + log()
}

proof fn stamped_has_no_separator(stamp: Seq<char>)
    requires
        is_plain(stamp),
        stamp.len() > 0,
    ensures
        encode_utf8(stamp).len() > 0,
        !stamped(stamp).contains(SEPARATOR),
{
    plain_is_ascii(stamp);
    let bytes = encode_utf8(stamp);
    assert forall|i: int| 0 <= i < stamped(stamp).len() implies stamped(stamp)[i] != SEPARATOR by {
        if i < bytes.len() {
            assert(stamped(stamp)[i] == stamp[i] as u8);
            assert(is_stamp_char(stamp[i]));
        }
    }
}

/// A new log file lies where its prefix says, under a name that ends in the moment and `.log`.
proof fn log_path_split(storage: Storage, stamp: Seq<char>)
    requires
        is_plain(stamp),
        stamp.len() > 0,
    ensures
        storage.log_path(stamp) == prefix_directory(
            storage.root_dir@,
            encode_utf8(storage.prefix@),
        ).push(
            encode_utf8(storage.prefix@).skip(tail_start(encode_utf8(storage.prefix@)))
                + stamped(stamp),
        ),
{
    let prefix = encode_utf8(storage.prefix@);
    stamped_has_no_separator(stamp);
    assert(log_file_name(storage.prefix@, stamp) =~= prefix + stamped(stamp));
    joined_ends_with(storage.root_dir@, prefix, stamped(stamp));
}

/// A new log file has the extension of an uncompressed file, whatever the prefix.
pub proof fn new_file_is_uncompressed(storage: Storage, file: NewFile)
    requires
        file.is_for(storage),
    ensures
        extension(file.path@) == Some(log()),
{
    let stamp = choose|stamp: Seq<char>| file.is_named(storage, stamp);
    let text = numbered(stamp, file.number as int);
    numbered_stamp_is_plain(
        file.began.secs as int,
        file.began.nanos as int,
        stamp,
        file.number as int,
    );
    let prefix = encode_utf8(storage.prefix@);
    let own = prefix.skip(tail_start(prefix));
    tail_start_bounds(prefix);
    log_path_split(storage, text);
    stamped_has_no_separator(text);
    log_extension(prefix_directory(storage.root_dir@, prefix), own + encode_utf8(text));
    assert(own + stamped(text) =~= (own + encode_utf8(text)).push(DOT) + log());
}

/// Compression appends `.gz` to the name of a log file, and gives it the extension by which it is
/// known as compressed.
pub proof fn compression_appends_suffix(path: Parts)
    requires
        extension(path) == Some(log()),
    ensures
        compressed_path(path) == path.drop_last().push(path.last().push(DOT) + gz()),
        extension(compressed_path(path)) == Some(gz()),
        compressed_path(path) != path,
{
    let name = path.last();
    name_is_stem_and_extension(path);
    assert(stem(name).push(DOT) + log_gz() =~= name.push(DOT) + gz());
    let full = name.push(DOT) + gz();
    last_dot_unique(full, name.len() as int);
    assert(full.skip(name.len() as int + 1) =~= gz());
    assert(compressed_path(path).last() == full);
    assert(full.len() > 2 && parent_part().len() == 2);
}

/// Two files in one directory, whose names differ in the spelled moment, are listed as the
/// spellings are ordered.
proof fn listed_by_stamp(
    front: Parts,
    own: Seq<u8>,
    x: Seq<u8>,
    y: Seq<u8>,
    k: int,
    behind_x: Seq<u8>,
    behind_y: Seq<u8>,
)
    requires
        bytes_smaller_at(x, y, k),
        behind_x.len() > 2,
        behind_y.len() > 2,
    ensures
        path_lt(front.push(own + x + behind_x), front.push(own + y + behind_y)),
{
    let a = own + x + behind_x;
    let b = own + y + behind_y;
    smaller_byte_decides(own, x, y, k, behind_x, behind_y);
    assert(a.len() > 2 && b.len() > 2 && parent_part().len() == 2);
    assert(part_lt(a, b));
    assert(paths_diverge_at(front.push(a), front.push(b), front.len() as int));
}

/// What follows the spelled moment in the name of a log file.
spec fn behind_stamp(stamp: Seq<char>, number: int) -> Seq<u8> {
    encode_utf8(numbered(stamp, number).skip(stamp.len() as int)).push(DOT) + log()
}

/// The path of a log file, compressed or not, as directory and name.
proof fn stamped_paths(storage: Storage, file: NewFile, stamp: Seq<char>)
    requires
        file.began.is_valid(),
        file.is_named(storage, stamp),
    ensures
        ({
            let prefix = encode_utf8(storage.prefix@);
            let own = prefix.skip(tail_start(prefix));
            let front = prefix_directory(storage.root_dir@, prefix);
            let behind = behind_stamp(stamp, file.number as int);
            &&& file.path@ == front.push(own + encode_utf8(stamp) + behind)
            &&& compressed_path(file.path@) == front.push(
                own + encode_utf8(stamp) + (behind.push(DOT) + gz()),
            )
        }),
{
    let prefix = encode_utf8(storage.prefix@);
    let own = prefix.skip(tail_start(prefix));
    let front = prefix_directory(storage.root_dir@, prefix);
    let behind = behind_stamp(stamp, file.number as int);
    let text = numbered(stamp, file.number as int);
    let x = encode_utf8(stamp);
    numbered_stamp_is_plain(
        file.began.secs as int,
        file.began.nanos as int,
        stamp,
        file.number as int,
    );
    log_path_split(storage, text);
    assert(own + stamped(text) =~= own + x + behind);
    new_file_is_uncompressed(storage, file);
    compression_appends_suffix(file.path@);
    assert(file.path@.drop_last() =~= front);
    assert((own + x + behind).push(DOT) + gz() =~= own + x + (behind.push(DOT) + gz()));
}

/// The moment and the number decide the name.
pub proof fn file_name_is_unique(storage: Storage, a: NewFile, b: NewFile)
    requires
        a.is_for(storage),
        b.is_for(storage),
        a.began == b.began,
        a.number == b.number,
    ensures
        a.path@ == b.path@,
{
    let x = choose|stamp: Seq<char>| a.is_named(storage, stamp);
    let y = choose|stamp: Seq<char>| b.is_named(storage, stamp);
    stamp_is_unique(a.began.secs as int, a.began.nanos as int, x, y);
}

/// Different spellings make different names, before compression and after it.
proof fn spellings_are_told_apart(own: Seq<u8>, p: Seq<char>, q: Seq<char>)
    requires
        p != q,
    ensures
        own + stamped(p) != own + stamped(q),
        (own + stamped(p)).push(DOT) + gz() != (own + stamped(q)).push(DOT) + gz(),
{
    encode_utf8_decode_utf8(p);
    encode_utf8_decode_utf8(q);
    let s = own + stamped(p);
    let t = own + stamped(q);
    assert(s.subrange(own.len() as int, s.len() - 4) =~= encode_utf8(p));
    assert(t.subrange(own.len() as int, t.len() - 4) =~= encode_utf8(q));
    let u = s.push(DOT) + gz();
    let v = t.push(DOT) + gz();
    assert(u.take(u.len() - 3) =~= s);
    assert(v.take(v.len() - 3) =~= t);
}

/// The name of a log file, compressed or not, behind its directory.
proof fn name_of(storage: Storage, file: NewFile, stamp: Seq<char>)
    requires
        file.began.is_valid(),
        file.is_named(storage, stamp),
    ensures
        ({
            let prefix = encode_utf8(storage.prefix@);
            let name = prefix.skip(tail_start(prefix)) + stamped(
                numbered(stamp, file.number as int),
            );
            &&& file.path@.last() == name
            &&& compressed_path(file.path@).last() == name.push(DOT) + gz()
        }),
{
    numbered_stamp_is_plain(
        file.began.secs as int,
        file.began.nanos as int,
        stamp,
        file.number as int,
    );
    log_path_split(storage, numbered(stamp, file.number as int));
    new_file_is_uncompressed(storage, file);
    compression_appends_suffix(file.path@);
}

/// Files begun at one moment, with different numbers, have different names.
pub proof fn numbered_files_differ(storage: Storage, a: NewFile, b: NewFile)
    requires
        a.is_for(storage),
        b.is_for(storage),
        a.began == b.began,
        a.number != b.number,
    ensures
        a.path@ != b.path@,
        compressed_path(a.path@) != compressed_path(b.path@),
{
    let x = choose|stamp: Seq<char>| a.is_named(storage, stamp);
    let y = choose|stamp: Seq<char>| b.is_named(storage, stamp);
    stamp_is_unique(a.began.secs as int, a.began.nanos as int, x, y);
    numbers_are_told_apart(x, a.number as int, b.number as int);
    name_of(storage, a, x);
    name_of(storage, b, x);
    let prefix = encode_utf8(storage.prefix@);
    spellings_are_told_apart(
        prefix.skip(tail_start(prefix)),
        numbered(x, a.number as int),
        numbered(x, b.number as int),
    );
}

/// The spelling of the earlier moment has the smaller byte where the two first differ.
proof fn earlier_stamp_is_smaller(
    file: NewFile,
    stamp: Seq<char>,
    newer: NewFile,
    newer_stamp: Seq<char>,
) -> (k: int)
    requires
        file.began.is_valid(),
        newer.began.is_valid(),
        is_stamp(file.began.secs as int, file.began.nanos as int, stamp),
        is_stamp(newer.began.secs as int, newer.began.nanos as int, newer_stamp),
        FIRST_FOUR_DIGIT_SECOND <= file.began.secs <= LAST_FOUR_DIGIT_SECOND,
        FIRST_FOUR_DIGIT_SECOND <= newer.began.secs <= LAST_FOUR_DIGIT_SECOND,
        file.began.total_micros() < newer.began.total_micros(),
    ensures
        bytes_smaller_at(encode_utf8(stamp), encode_utf8(newer_stamp), k),
{
    stamps_run_with_time(
        file.began.secs as int,
        file.began.nanos as int,
        stamp,
        newer.began.secs as int,
        newer.began.nanos as int,
        newer_stamp,
    );
    choose|k: int| bytes_smaller_at(encode_utf8(stamp), encode_utf8(newer_stamp), k)
}

/// Files are listed as the spellings of their moments are ordered.
proof fn listed_as_spelled(
    storage: Storage,
    file: NewFile,
    stamp: Seq<char>,
    newer: NewFile,
    newer_stamp: Seq<char>,
    k: int,
)
    requires
        file.began.is_valid(),
        newer.began.is_valid(),
        file.is_named(storage, stamp),
        newer.is_named(storage, newer_stamp),
        bytes_smaller_at(encode_utf8(stamp), encode_utf8(newer_stamp), k),
    ensures
        path_lt(file.path@, newer.path@),
        path_lt(compressed_path(file.path@), compressed_path(newer.path@)),
{
    let prefix = encode_utf8(storage.prefix@);
    let own = prefix.skip(tail_start(prefix));
    let front = prefix_directory(storage.root_dir@, prefix);
    let x = behind_stamp(stamp, file.number as int);
    let y = behind_stamp(newer_stamp, newer.number as int);
    let a = encode_utf8(stamp);
    let b = encode_utf8(newer_stamp);
    assert(path_lt(file.path@, newer.path@)) by {
        stamped_paths(storage, file, stamp);
        stamped_paths(storage, newer, newer_stamp);
        listed_by_stamp(front, own, a, b, k, x, y);
    }
    assert(path_lt(compressed_path(file.path@), compressed_path(newer.path@))) by {
        stamped_paths(storage, file, stamp);
        stamped_paths(storage, newer, newer_stamp);
        listed_by_stamp(front, own, a, b, k, x.push(DOT) + gz(), y.push(DOT) + gz());
    }
}

/// Log files of one storage are listed in the order in which they were begun, before compression
/// and after it: the one begun earlier, by a microsecond or more, comes first. This holds of years
/// with four digits.
pub proof fn files_are_listed_by_age(storage: Storage, file: NewFile, newer: NewFile)
    requires
        file.is_for(storage),
        newer.is_for(storage),
        FIRST_FOUR_DIGIT_SECOND <= file.began.secs <= LAST_FOUR_DIGIT_SECOND,
        FIRST_FOUR_DIGIT_SECOND <= newer.began.secs <= LAST_FOUR_DIGIT_SECOND,
        file.began.total_micros() < newer.began.total_micros(),
    ensures
        path_lt(file.path@, newer.path@),
        path_lt(compressed_path(file.path@), compressed_path(newer.path@)),
{
    let a = choose|stamp: Seq<char>| file.is_named(storage, stamp);
    let b = choose|stamp: Seq<char>| newer.is_named(storage, stamp);
    let k = earlier_stamp_is_smaller(file, a, newer, b);
    listed_as_spelled(storage, file, a, newer, b, k);
}

} // verus!
