//! Errors.
use crate::errors::{
    CollectFilesError, CompressError, CutError, ExportError, NewError, NewFileError, RotateError,
};
use crate::path::LogPath;
use std::io;
use vstd::prelude::*;

verus! {

/// An error that is passed on is wrapped and keeps what it says.
pub proof fn errors_are_wrapped(
    collect: CollectFilesError,
    open: NewFileError,
    rotate: RotateError,
    compress: CompressError,
    a: NewError,
    b: NewError,
    c: CutError,
    d: ExportError,
    e: ExportError,
    f: RotateError,
)
    requires
        call_ensures(<NewError as From<CollectFilesError>>::from, (collect,), a),
        call_ensures(<NewError as From<NewFileError>>::from, (open,), b),
        call_ensures(<CutError as From<RotateError>>::from, (rotate,), c),
        call_ensures(<ExportError as From<RotateError>>::from, (rotate,), d),
        call_ensures(<ExportError as From<CompressError>>::from, (compress,), e),
        call_ensures(<RotateError as From<NewFileError>>::from, (open,), f),
    ensures
        a == NewError::CollectExistingFiles(collect),
        b == NewError::NewFile(open),
        c == CutError::Rotate(rotate),
        d == ExportError::Rotate(rotate),
        e == ExportError::Compression(compress),
        f == RotateError::NewFile(open),
{
}

/// Behind a failed rotation, and behind a file that could not be opened, stands the error of the
/// file system.
pub proof fn cause_is_kept(
    path: LogPath,
    cause: io::Error,
    a: io::Error,
    b: io::Error,
    c: io::Error,
    d: io::Error,
    e: io::Error,
)
    requires
        call_ensures(
            <io::Error as From<NewFileError>>::from,
            (NewFileError::Open(path, cause),),
            a,
        ),
        call_ensures(
            <io::Error as From<RotateError>>::from,
            (RotateError::Flush(path, cause),),
            b,
        ),
        call_ensures(
            <io::Error as From<RotateError>>::from,
            (RotateError::Sync(path, cause),),
            c,
        ),
        call_ensures(
            <io::Error as From<RotateError>>::from,
            (RotateError::Remove(path, cause),),
            d,
        ),
        call_ensures(
            <io::Error as From<RotateError>>::from,
            (RotateError::NewFile(NewFileError::Open(path, cause)),),
            e,
        ),
    ensures
        a == cause,
        b == cause,
        c == cause,
        d == cause,
        e == cause,
{
}

} // verus!
