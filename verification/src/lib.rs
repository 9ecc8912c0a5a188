//! A rotating file with customizable rotation behavior: the decisions it takes, without the disk.
//!
//! Log data go to one file until it is too big or too old. Then the file is completed, compressed
//! with gzip in the background, and replaced by the next; of the files on disk, the oldest are
//! deleted when there are too many. An export gathers all compressed files into one.
//!
//! What touches the disk is left to the caller. Each operation is a value that names what has to be
//! done next ([`write::Writing`], [`rotate::Rotation`], [`compress::Compression`],
//! [`export::Export`]); told how that went, it yields what follows, or the error. The contracts say
//! which step follows which, what is recorded, and which error is returned for which file.
pub mod calendar;
pub mod compress;
pub mod errors;
pub mod export;
pub mod gzip;
pub mod history;
pub mod init;
pub mod laws;
pub mod limits;
pub mod order;
pub mod path;
pub mod rotate;
pub mod rotating_file;
pub mod state;
pub mod storage;
pub mod time;
pub mod work;
pub mod write;

pub use crate::limits::Limits;
pub use crate::rotating_file::RotatingFile;
pub use crate::storage::Storage;
