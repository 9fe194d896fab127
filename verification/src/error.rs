//! Errors of the engine and the time stamp that travels with file attributes.

use vstd::prelude::*;

verus! {

/// A point in time as seconds and nanoseconds relative to the Unix epoch.
#[derive(Clone, Copy, Debug, PartialEq, Eq, Structural)]
pub struct Timestamp {
    pub sec: i64,
    pub nsec: i32,
}

/// What can go wrong in the engine.
#[derive(Clone, Debug, PartialEq, Eq)]
pub enum Error {
    /// The file handle is not live in the file pool.
    InvalidHandle(u64),
    /// The inode number is not live in the inode pool.
    InvalidInode(u64),
    /// The name cannot be the name of a remote file.
    InvalidFileName(String),
    /// A write or a cached open goes beyond the configured size limit.
    FileTooLarge,
    /// A write was attempted while the disk cache is disabled.
    WriteWithoutCache,
    /// A streaming handle was read at another offset than its position.
    NonsequentialRead { current_pos: u64, try_offset: u64 },
    /// The download of the slot ended before all bytes arrived.
    DownloadFailed,
    /// The slot was invalidated by a remote change; the file must be reopened.
    Invalidated,
    /// The pool cannot hand out another key.
    PoolFull,
}

impl Error {
    /// A short human-readable description of the error.
    pub fn message(&self) -> (text: &'static str)
        ensures
            text@ == error_text(*self),
    {
        match self {
            Error::InvalidHandle(_) => "invalid file handle",
            Error::InvalidInode(_) => "invalid inode",
            Error::InvalidFileName(_) => "invalid file name",
            Error::FileTooLarge => "file too large",
            Error::WriteWithoutCache => "cannot write when disk cache is disabled",
            Error::NonsequentialRead { .. } => "non-sequential read on a streaming file",
            Error::DownloadFailed => "download failed",
            Error::Invalidated => "file is changed on the remote side",
            Error::PoolFull => "pool is full",
        }
    }
}

/// The text that [`Error::message`] gives for each error.
pub open spec fn error_text(e: Error) -> Seq<char> {
    match e {
        Error::InvalidHandle(_) => "invalid file handle"@,
        Error::InvalidInode(_) => "invalid inode"@,
        Error::InvalidFileName(_) => "invalid file name"@,
        Error::FileTooLarge => "file too large"@,
        Error::WriteWithoutCache => "cannot write when disk cache is disabled"@,
        Error::NonsequentialRead { .. } => "non-sequential read on a streaming file"@,
        Error::DownloadFailed => "download failed"@,
        Error::Invalidated => "file is changed on the remote side"@,
        Error::PoolFull => "pool is full"@,
    }
}

} // verus!
