//! What can go wrong, and with which file.
use crate::path::LogPath;
use std::io;
use vstd::prelude::*;
use vstd::std_specs::convert::FromSpecImpl;

verus! {

/// `std::io::Error`, carried through unopened.
#[verifier::external_type_specification]
#[verifier::external_body]
pub struct ExIoError(std::io::Error);

/// Why a rotating file cannot be set up.
#[derive(Debug)]
pub enum NewError {
    /// The root directory could not be created.
    CreateRootDir(LogPath, io::Error),
    /// The files already there could not be collected.
    CollectExistingFiles(CollectFilesError),
    /// The first log file could not be opened.
    NewFile(NewFileError),
}

/// Why the files already there cannot be collected.
#[derive(Debug)]
pub enum CollectFilesError {
    /// The contents of the directory could not be read.
    ReadDir(LogPath, io::Error),
    /// An entry of the directory could not be read.
    ReadDirEntry(io::Error),
    /// The metadata of the entry at the path could not be read.
    AccessMetadata(LogPath, io::Error),
}

/// Why the current file cannot be cut.
#[derive(Debug)]
pub enum CutError {
    /// The rotation failed.
    Rotate(RotateError),
    /// At least one compression task failed.
    Compression(Vec<CompressError>),
}

/// Why an export fails.
#[derive(Debug)]
pub enum ExportError {
    /// The rotation before the export failed.
    Rotate(RotateError),
    /// A compression task failed.
    Compression(CompressError),
    /// The output file could not be created.
    CreateOutput(LogPath, io::Error),
    /// The input file could not be opened.
    OpenInput(LogPath, io::Error),
    /// Data could not be copied from the input file to the output file.
    Copy(LogPath, LogPath, io::Error),
    /// The output file could not be flushed.
    Flush(LogPath, io::Error),
    /// The output file could not be synced.
    Sync(LogPath, io::Error),
}

/// Why a rotation fails.
#[derive(Debug)]
pub enum RotateError {
    /// The completed file could not be flushed.
    Flush(LogPath, io::Error),
    /// The completed file could not be synced.
    Sync(LogPath, io::Error),
    /// An old file could not be removed.
    Remove(LogPath, io::Error),
    /// The next log file could not be opened.
    NewFile(NewFileError),
}

/// Why a log file cannot be opened.
#[derive(Debug)]
pub enum NewFileError {
    /// The file could not be created.
    Open(LogPath, io::Error),
}

/// Why a compression fails.
#[derive(Debug)]
pub enum CompressError {
    /// The output file could not be opened.
    OpenOutput(LogPath, io::Error),
    /// The input file could not be opened.
    OpenInput(LogPath, io::Error),
    /// The compressed output could not be written to the file.
    Write(LogPath, io::Error),
    /// The gzip-compressed output file could not be flushed.
    FlushGZip(LogPath, io::Error),
    /// The compression input file could not be removed.
    Remove(LogPath, io::Error),
    /// The file could not be synced.
    SyncFile(LogPath, io::Error),
    /// The directory could not be synced.
    SyncDir(LogPath, io::Error),
}

/// Why a rotating file cannot be closed.
#[derive(Debug)]
pub enum CloseError {
    /// The current file could not be flushed.
    Flush(LogPath, io::Error),
    /// The file could not be synced.
    SyncFile(LogPath, io::Error),
    /// The directory could not be synced.
    SyncDir(LogPath, io::Error),
    /// At least one compression thread failed.
    Compression(Vec<CompressError>),
}

impl From<CollectFilesError> for NewError {
    fn from(err: CollectFilesError) -> (res: Self) {
        NewError::CollectExistingFiles(err)
    }
}

impl FromSpecImpl<CollectFilesError> for NewError {
    open spec fn obeys_from_spec() -> bool {
        true
    }

    open spec fn from_spec(err: CollectFilesError) -> Self {
        NewError::CollectExistingFiles(err)
    }
}

impl From<NewFileError> for NewError {
    fn from(err: NewFileError) -> (res: Self) {
        NewError::NewFile(err)
    }
}

impl FromSpecImpl<NewFileError> for NewError {
    open spec fn obeys_from_spec() -> bool {
        true
    }

    open spec fn from_spec(err: NewFileError) -> Self {
        NewError::NewFile(err)
    }
}

impl From<RotateError> for CutError {
    fn from(err: RotateError) -> (res: Self) {
        CutError::Rotate(err)
    }
}

impl FromSpecImpl<RotateError> for CutError {
    open spec fn obeys_from_spec() -> bool {
        true
    }

    open spec fn from_spec(err: RotateError) -> Self {
        CutError::Rotate(err)
    }
}

impl From<RotateError> for ExportError {
    fn from(err: RotateError) -> (res: Self) {
        ExportError::Rotate(err)
    }
}

impl FromSpecImpl<RotateError> for ExportError {
    open spec fn obeys_from_spec() -> bool {
        true
    }

    open spec fn from_spec(err: RotateError) -> Self {
        ExportError::Rotate(err)
    }
}

impl From<CompressError> for ExportError {
    fn from(err: CompressError) -> (res: Self) {
        ExportError::Compression(err)
    }
}

impl FromSpecImpl<CompressError> for ExportError {
    open spec fn obeys_from_spec() -> bool {
        true
    }

    open spec fn from_spec(err: CompressError) -> Self {
        ExportError::Compression(err)
    }
}

impl From<NewFileError> for RotateError {
    fn from(err: NewFileError) -> (res: Self) {
        RotateError::NewFile(err)
    }
}

impl FromSpecImpl<NewFileError> for RotateError {
    open spec fn obeys_from_spec() -> bool {
        true
    }

    open spec fn from_spec(err: NewFileError) -> Self {
        RotateError::NewFile(err)
    }
}

impl From<NewFileError> for io::Error {
    fn from(err: NewFileError) -> (res: Self) {
        match err {
            NewFileError::Open(_, err) => err,
        }
    }
}

impl FromSpecImpl<NewFileError> for io::Error {
    open spec fn obeys_from_spec() -> bool {
        true
    }

    open spec fn from_spec(err: NewFileError) -> Self {
        match err {
            NewFileError::Open(_, err) => err,
        }
    }
}

/// The error of the file system behind a failed rotation.
pub open spec fn cause_of(err: RotateError) -> io::Error {
    match err {
        RotateError::Flush(_, err) => err,
        RotateError::Sync(_, err) => err,
        RotateError::Remove(_, err) => err,
        RotateError::NewFile(NewFileError::Open(_, err)) => err,
    }
}

impl From<RotateError> for io::Error {
    fn from(err: RotateError) -> (res: Self) {
        match err {
            RotateError::Flush(_, err) => err,
            RotateError::Sync(_, err) => err,
            RotateError::Remove(_, err) => err,
            RotateError::NewFile(err) => io::Error::from(err),
        }
    }
}

impl FromSpecImpl<RotateError> for io::Error {
    open spec fn obeys_from_spec() -> bool {
        true
    }

    open spec fn from_spec(err: RotateError) -> Self {
        cause_of(err)
    }
}

} // verus!
