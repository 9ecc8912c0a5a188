//! When a file is rotated, and how many are kept.
use crate::time::TimeDelta;
use vstd::prelude::*;

verus! {

/// The limits that a rotating file keeps to. One that is not set does not bind.
pub struct Limits {
    /// Max size (in bytes) of the file after which it will rotate.
    pub size: Option<usize>,
    /// The span of time since a file was created beyond which it will rotate.
    pub age: Option<TimeDelta>,
    /// Max number of files on disk after which the oldest will be deleted on rotation.
    ///
    /// In other words, if, before a rotation, the number of files on disk including the new file
    /// that will about to start being written to would be greater than `files`, delete the oldest
    /// file.
    ///
    /// What counts is the compressed files, the current file and the new one. A file that is being
    /// compressed cannot be deleted; it counts when its compression is recorded.
    pub files: Option<usize>,
}

impl Default for Limits {
    fn default() -> (res: Self)
        ensures
            res.size is None,
            res.age is None,
            res.files is None,
    {
        Limits { size: None, age: None, files: None }
    }
}

impl Limits {
    /// No limit is zero.
    pub open spec fn is_valid(self) -> bool {
        self.size != Some(0usize) && self.files != Some(0usize)
    }

    pub fn size(self, bytes: usize) -> (res: Limits)
        requires
            bytes > 0,
        ensures
            res == (Limits { size: Some(bytes), ..self }),
    {
        Limits { size: Some(bytes), age: self.age, files: self.files }
    }

    pub fn age(self, max_age: TimeDelta) -> (res: Limits)
        ensures
            res == (Limits { age: Some(max_age), ..self }),
    {
        Limits { size: self.size, age: Some(max_age), files: self.files }
    }

    pub fn files(self, max_files: usize) -> (res: Limits)
        requires
            max_files > 0,
        ensures
            res == (Limits { files: Some(max_files), ..self }),
    {
        Limits { size: self.size, age: self.age, files: Some(max_files) }
    }
}

} // verus!
