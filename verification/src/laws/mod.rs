//! What the operations do, in terms of what goes into a call and what comes out of it.
//!
//! Each law speaks of calls: `call_ensures(operation, arguments, result)` says that the operation,
//! called with these arguments, may return this result. Of a `&mut` argument, `old(..)` is what it
//! holds before the call and `final(..)` what it holds after.
pub mod compression;
pub mod export;
pub mod failures;
pub mod init;
pub mod inputs;
pub mod naming;
pub mod opening;
pub mod paths;
pub mod records;
pub mod rotation;
pub mod writing;
