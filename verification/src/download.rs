//! The downloader: which range to ask for, and when to give up.
//!
//! A download delivers the bytes of a file in order from offset 0. It asks
//! the remote side for everything from its position on; when the transfer
//! breaks it asks again from where it stands. A request that fails is tried
//! again after a delay, up to a limit; each request that is answered starts
//! counting anew.

use vstd::prelude::*;

verus! {

/// The only status code that answers a range request correctly.
pub const PARTIAL_CONTENT: u16 = 206;

/// What the downloader does next.
#[derive(Clone, Copy, Debug, PartialEq, Eq)]
pub enum DownloadStep {
    /// Ask for the bytes from offset `from` to the end.
    Request { from: u64 },
    /// All bytes are delivered.
    Finished,
}

/// What follows the answer to a request.
#[derive(Clone, Copy, Debug, PartialEq, Eq)]
pub enum ResponseStep {
    /// The answer is good: deliver its body chunk by chunk.
    Deliver,
    /// The request failed: wait for the retry delay and send it again.
    Retry,
    /// The request failed too often: the download is abandoned.
    GiveUp,
}

/// The progress of one download.
#[derive(Clone, Copy, Debug, PartialEq, Eq)]
pub struct Downloader {
    file_size: u64,
    max_retry: usize,
    pos: u64,
    tries: usize,
}

impl Downloader {
    /// The number of bytes that the download has to deliver.
    pub closed spec fn file_size(self) -> u64 {
        self.file_size
    }

    /// How many failed tries of one request are forgiven.
    pub closed spec fn max_retry(self) -> usize {
        self.max_retry
    }

    /// The number of bytes delivered so far.
    pub closed spec fn pos(self) -> u64 {
        self.pos
    }

    /// How often the current request has failed.
    pub closed spec fn tries(self) -> usize {
        self.tries
    }

    /// What holds of every downloader: it never delivers more than the file.
    pub open spec fn wf(self) -> bool {
        self.pos() <= self.file_size()
    }

    /// A download of `file_size` bytes that forgives `max_retry` failed
    /// tries per request.
    pub fn new(file_size: u64, max_retry: usize) -> (d: Downloader)
        ensures
            d.wf(),
            d.file_size() == file_size,
            d.max_retry() == max_retry,
            d.pos() == 0,
            d.tries() == 0,
    {
        Downloader { file_size, max_retry, pos: 0, tries: 0 }
    }

    /// The number of bytes delivered so far.
    pub fn position(&self) -> (pos: u64)
        ensures
            pos == self.pos(),
    {
        self.pos
    }

    /// Decides what to do when no request is open: at the start, and each
    /// time the body of an answer has ended. While bytes are missing the
    /// next request asks for the rest, and its failures are counted from
    /// zero.
    pub fn next_step(&mut self) -> (step: DownloadStep)
        ensures
            final(self).file_size() == old(self).file_size(),
            final(self).max_retry() == old(self).max_retry(),
            final(self).pos() == old(self).pos(),
            final(self).tries() == 0,
            step == if old(self).pos() < old(self).file_size() {
                DownloadStep::Request { from: old(self).pos() }
            } else {
                DownloadStep::Finished
            },
            old(self).wf() && step is Finished ==> final(self).pos() == final(self).file_size(),
    {
        self.tries = 0;
        if self.pos < self.file_size {
            DownloadStep::Request { from: self.pos }
        } else {
            DownloadStep::Finished
        }
    }

    /// The count of failures after one more.
    pub open spec fn one_more(tries: usize) -> usize {
        if tries < usize::MAX {
            (tries + 1) as usize
        } else {
            tries
        }
    }

    /// Decides on the answer to a request. `status` is the status code of
    /// the answer, or `None` if no answer came.
    ///
    /// Only the status "partial content" is good. Everything else counts as
    /// one more failure of this request; once the failures exceed the limit
    /// the download is abandoned.
    pub fn on_response(&mut self, status: Option<u16>) -> (step: ResponseStep)
        ensures
            final(self).file_size() == old(self).file_size(),
            final(self).max_retry() == old(self).max_retry(),
            final(self).pos() == old(self).pos(),
            status == Some(PARTIAL_CONTENT) ==> step == ResponseStep::Deliver && final(self).tries()
                == old(self).tries(),
            status != Some(PARTIAL_CONTENT) ==> final(self).tries() == Self::one_more(
                old(self).tries(),
            ) && step == if old(self).max_retry() < final(self).tries() {
                ResponseStep::GiveUp
            } else {
                ResponseStep::Retry
            },
    {
        match status {
            Some(code) => {
                if code == PARTIAL_CONTENT {
                    return ResponseStep::Deliver;
                }
            },
            None => {},
        }
        if self.tries < usize::MAX {
            self.tries = self.tries + 1;
        }
        if self.max_retry < self.tries {
            ResponseStep::GiveUp
        } else {
            ResponseStep::Retry
        }
    }

    /// Records that a chunk of `len` bytes was delivered. The remote side
    /// must not send more than the file holds.
    pub fn on_chunk(&mut self, len: usize)
        requires
            old(self).pos() + len <= old(self).file_size(),
        ensures
            final(self).wf(),
            final(self).file_size() == old(self).file_size(),
            final(self).max_retry() == old(self).max_retry(),
            final(self).tries() == old(self).tries(),
            final(self).pos() == old(self).pos() + len,
    {
        self.pos = self.pos + len as u64;
    }

    /// Whether a chunk of `len` bytes still fits into the file.
    pub fn chunk_fits(&self, len: usize) -> (fits: bool)
        ensures
            fits == (self.pos() + len <= self.file_size()),
    {
        match self.pos.checked_add(len as u64) {
            Some(end) => end <= self.file_size,
            None => false,
        }
    }
}

} // verus!
