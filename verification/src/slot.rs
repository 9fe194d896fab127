//! The state machine of one cache slot.
//!
//! A slot caches one remote file in a local cache file. Two producers fill
//! the cache file: the writer that drains the download, and local writes.
//! [`SlotState`] holds what decides how a read, a write, a truncation, a
//! flush, an arriving chunk or a finished upload is answered. Each answer is
//! a plan: the caller carries it out on the cache file, waits, or starts an
//! upload, and comes back with the next event.

use vstd::prelude::*;
use bytes::Bytes;
use crate::cache_file::{lemma_read_after_write, lemma_resize_to_same_len, read_range, resized, written};
use crate::chunk::{chunk_bytes, chunk_len, chunk_truncate};
use crate::error::{Error, Timestamp};
use crate::file::UpdatedFileAttr;

verus! {

/// Where a slot stands.
#[derive(Clone, Copy, Debug, PartialEq, Eq)]
pub enum Status {
    /// The writer is filling the cache file from the download. `truncate`
    /// holds the number of bytes to take from the download and the
    /// modification time of a pending truncation; with it the slot turns
    /// dirty when the download completes.
    Downloading { truncate: Option<(u64, Timestamp)> },
    /// The download ended early. Reads and writes fail.
    DownloadFailed,
    /// The cache file is complete and equal to the remote file.
    Available,
    /// The cache file is complete and an upload is waiting or running.
    /// `epoch` tags this upload; `flush_armed` tells that nobody has asked
    /// yet to start it at once.
    Dirty { epoch: u64, flush_armed: bool },
    /// The remote file changed, or the slot was replaced. Reads and writes
    /// fail until the file is opened again.
    Invalidated,
}

impl Status {
    /// The cache file is complete: the slot is available or dirty.
    pub open spec fn is_present(self) -> bool {
        self is Available || self is Dirty
    }
}

/// The part of a slot that decides.
#[derive(Debug)]
pub struct SlotState {
    /// The remote item that the slot caches.
    pub item_id: String,
    /// The content tag of the remote item as far as the slot knows it.
    pub c_tag: String,
    pub status: Status,
    /// The logical size of the file.
    pub file_size: u64,
    /// How many bytes from offset 0 can be read. While the download runs this
    /// is the position of the writer.
    pub available_size: u64,
    /// The tag that the next upload gets.
    pub next_epoch: u64,
}

/// How a read is served.
#[derive(Clone, Copy, Debug, PartialEq, Eq)]
pub enum ReadPlan {
    /// The read returns no bytes.
    Empty,
    /// The range is not downloaded yet: wait until `available_size` reaches
    /// `until` or the download ends, then ask again.
    Wait { until: u64 },
    /// Read `len` bytes of the cache file at `offset`.
    Serve { offset: u64, len: usize },
}

/// How a write is carried out.
#[derive(Clone, Debug, PartialEq, Eq)]
pub enum WritePlan {
    /// The download is still running: wait until it ends, then ask again.
    Wait,
    /// Write the data at `offset`. The file grew by `grown` bytes, the upload
    /// tagged `epoch` is to be started, and `attr` describes the file after
    /// the write.
    Store { offset: u64, grown: u64, epoch: u64, attr: UpdatedFileAttr },
}

/// How a truncation is carried out.
#[derive(Clone, Copy, Debug, PartialEq, Eq)]
pub enum TruncatePlan {
    /// Set the length of the cache file to `len`; with `upload`, start the
    /// upload with that tag.
    Resize { len: u64, upload: Option<u64> },
    /// The slot is of no use any more: fetch the file into a new slot.
    Refetch,
}

/// What a flush has to wait for.
#[derive(Clone, Copy, Debug, PartialEq, Eq)]
pub enum FlushPlan {
    /// Nothing is pending.
    Done,
    /// Wait until the download ends, then ask again.
    WaitDownload,
    /// Wait until the upload tagged `epoch` ends; with `trigger`, tell it
    /// first to start at once. If the upload was given up for a newer one,
    /// ask again.
    WaitUpload { epoch: u64, trigger: bool },
}

/// What the writer does with a chunk of the download.
#[derive(Debug)]
pub enum WriterStep {
    /// Drop the chunk and stop.
    Abort,
    /// Write `data` at `offset` unless it is empty. With `finished` the
    /// download is complete and the writer stops; with `upload`, the upload
    /// with that tag is to be started.
    Store { offset: u64, data: Bytes, finished: bool, upload: Option<u64> },
}

/// How a download ended when no more chunks arrive.
#[derive(Clone, Copy, Debug, PartialEq, Eq)]
pub enum DownloadEnd {
    /// The slot was not downloading any more.
    Aborted,
    /// Bytes are missing: the slot is now `DownloadFailed`.
    Failed,
    /// All bytes are there; with `upload`, the upload with that tag is to be
    /// started.
    Complete { upload: Option<u64> },
}

/// The tag that follows `epoch`.
pub open spec fn next_epoch_of(epoch: u64) -> u64 {
    if epoch == u64::MAX {
        0
    } else {
        (epoch + 1) as u64
    }
}

impl WriterStep {
    /// Whether the step is the one that takes the slot from `before` to
    /// `after` on a chunk that holds `chunk`.
    pub open spec fn matches_plan(
        self,
        before: SlotState,
        after: SlotState,
        chunk: Seq<u8>,
        sole_owner: bool,
    ) -> bool {
        if before.writer_goes_on(sole_owner) {
            &&& self matches WriterStep::Store { offset, data, finished, upload }
            &&& offset == before.available_size
            &&& chunk_bytes(data) == chunk.take(before.taken(chunk.len()) as int)
            &&& finished == after.status.is_present()
            &&& upload == if finished && before.has_pending_truncate() {
                Some(before.next_epoch)
            } else {
                None
            }
        } else {
            self is Abort
        }
    }
}

impl ReadPlan {
    /// The bytes that the plan yields from a cache file with this content.
    pub open spec fn bytes(self, content: Seq<u8>) -> Seq<u8> {
        match self {
            ReadPlan::Serve { offset, len } => read_range(content, offset as nat, len as nat),
            _ => Seq::empty(),
        }
    }
}

impl SlotState {
    /// The number of bytes that the writer takes from the download.
    pub open spec fn download_cap(self) -> u64 {
        match self.status {
            Status::Downloading { truncate: Some((cap, _)) } => cap,
            _ => self.file_size,
        }
    }

    /// Whether the slot is downloading with a truncation pending.
    pub open spec fn has_pending_truncate(self) -> bool {
        self.status matches Status::Downloading { truncate: Some(_) }
    }

    /// What holds of every slot.
    pub open spec fn wf(self) -> bool {
        &&& self.status is Downloading ==> self.download_cap() <= self.file_size
        &&& self.status matches Status::Downloading { truncate: None } ==> self.available_size
            <= self.file_size
        &&& self.status.is_present() ==> self.available_size == self.file_size
        &&& self.status matches Status::Dirty { epoch, .. } ==> epoch != self.next_epoch
    }

    /// The slot with another status and nothing else changed.
    pub open spec fn with_status(self, status: Status) -> SlotState {
        SlotState { status, ..self }
    }

    /// The slot once an upload is queued: dirty under a fresh tag.
    pub open spec fn queued(self) -> SlotState {
        SlotState {
            status: Status::Dirty { epoch: self.next_epoch, flush_armed: true },
            available_size: self.file_size,
            next_epoch: next_epoch_of(self.next_epoch),
            ..self
        }
    }

    /// The slot that [`SlotState::new`] makes.
    pub open spec fn fresh(
        item_id: String,
        file_size: u64,
        c_tag: String,
        truncate: Option<(u64, Timestamp)>,
    ) -> SlotState {
        SlotState {
            item_id,
            c_tag,
            status: Status::Downloading { truncate },
            file_size,
            available_size: 0,
            next_epoch: 0,
        }
    }

    /// The slot that [`SlotState::new_empty`] makes.
    pub open spec fn fresh_empty(item_id: String, c_tag: String) -> SlotState {
        SlotState {
            item_id,
            c_tag,
            status: Status::Available,
            file_size: 0,
            available_size: 0,
            next_epoch: 0,
        }
    }

    /// A slot that is about to be filled from the remote file: downloading,
    /// with nothing available yet. With `truncate`, only so many bytes are
    /// taken from the download and the slot turns dirty afterwards.
    pub fn new(item_id: String, file_size: u64, c_tag: String, truncate: Option<(u64, Timestamp)>) -> (slot:
        SlotState)
        requires
            truncate matches Some((cap, _)) ==> cap <= file_size,
        ensures
            slot.wf(),
            slot == Self::fresh(item_id, file_size, c_tag, truncate),
    {
        SlotState {
            item_id,
            c_tag,
            status: Status::Downloading { truncate },
            file_size,
            available_size: 0,
            next_epoch: 0,
        }
    }

    /// A slot for a file that was just created empty on the remote side:
    /// available, of size zero.
    pub fn new_empty(item_id: String, c_tag: String) -> (slot: SlotState)
        ensures
            slot.wf(),
            slot == Self::fresh_empty(item_id, c_tag),
    {
        SlotState {
            item_id,
            c_tag,
            status: Status::Available,
            file_size: 0,
            available_size: 0,
            next_epoch: 0,
        }
    }

    /// How a read of `size` bytes at `offset` is answered.
    pub open spec fn read_outcome(self, offset: u64, size: usize) -> Result<ReadPlan, Error> {
        if self.file_size <= offset || size == 0 {
            Ok(ReadPlan::Empty)
        } else {
            let end = offset + size;
            let stop = if end < self.file_size { end } else { self.file_size as int };
            let serve = ReadPlan::Serve { offset, len: (stop - offset) as usize };
            match self.status {
                Status::Invalidated => Err(Error::Invalidated),
                Status::DownloadFailed => Err(Error::DownloadFailed),
                Status::Downloading { .. } => if end <= self.available_size {
                    Ok(serve)
                } else {
                    Ok(ReadPlan::Wait { until: if end < u64::MAX { end as u64 } else { u64::MAX } })
                },
                _ => Ok(serve),
            }
        }
    }

    /// Decides how to serve a read of `size` bytes at `offset`.
    ///
    /// A read at or behind the end of the file, or of no bytes, is empty
    /// whatever the status. Otherwise an invalidated or failed slot refuses;
    /// a downloading slot serves the range once it is available; an available
    /// or dirty slot serves it. The range is cut at the end of the file.
    pub fn read(&self, offset: u64, size: usize) -> (res: Result<ReadPlan, Error>)
        ensures
            res == self.read_outcome(offset, size),
            self.file_size <= offset || size == 0 ==> res == Ok::<ReadPlan, Error>(ReadPlan::Empty),
            res matches Ok(ReadPlan::Serve { offset: at, len }) ==> at == offset && 0 < len <= size
                && at + len <= self.file_size,
    {
        if self.file_size <= offset || size == 0 {
            return Ok(ReadPlan::Empty);
        }
        let (end, exact): (u64, bool) = match offset.checked_add(size as u64) {
            Some(end) => (end, true),
            None => (u64::MAX, false),
        };
        let stop: u64 = if end < self.file_size {
            end
        } else {
            self.file_size
        };
        let serve = ReadPlan::Serve { offset, len: (stop - offset) as usize };
        match self.status {
            Status::Invalidated => Err(Error::Invalidated),
            Status::DownloadFailed => Err(Error::DownloadFailed),
            Status::Downloading { .. } => {
                if exact && end <= self.available_size {
                    Ok(serve)
                } else {
                    Ok(ReadPlan::Wait { until: end })
                }
            },
            _ => Ok(serve),
        }
    }

    /// Whether an upload can be queued: the slot is available or dirty, or
    /// its download has brought all that is wanted and a truncation is
    /// pending.
    pub open spec fn can_queue(self) -> bool {
        self.status.is_present() || (self.has_pending_truncate() && self.download_cap()
            <= self.available_size)
    }

    /// Queues an upload: the slot turns dirty under a fresh tag, which is
    /// returned. An upload that was queued before is thereby given up: its
    /// tag is no longer the current one, so that it stops before it reads
    /// the file, and announces nothing if it has read it already.
    pub fn queue_upload(&mut self) -> (epoch: u64)
        requires
            old(self).can_queue(),
        ensures
            *final(self) == old(self).queued(),
            epoch == old(self).next_epoch,
            old(self).wf() ==> !old(self).upload_is_current(epoch),
            final(self).wf(),
    {
        let epoch = self.next_epoch;
        self.status = Status::Dirty { epoch, flush_armed: true };
        self.available_size = self.file_size;
        self.next_epoch = if epoch == u64::MAX {
            0
        } else {
            epoch + 1
        };
        epoch
    }

    /// Whether a write of `len` bytes at `offset` stays within `max_size`.
    pub open spec fn write_fits(offset: u64, len: usize, max_size: u64) -> bool {
        offset + len <= max_size
    }

    /// The slot after a write of `len` bytes at `offset` was accepted.
    pub open spec fn after_write(self, offset: u64, len: usize) -> SlotState {
        let end = (offset + len) as u64;
        let size = if self.file_size < end { end } else { self.file_size };
        SlotState { file_size: size, available_size: size, ..self.queued() }
    }

    /// The slot after a write of `len` bytes at `offset` was asked for: only
    /// a write that fits changes a slot, and only one that is available or
    /// dirty.
    pub open spec fn written_to(self, offset: u64, len: usize, max_size: u64) -> SlotState {
        if Self::write_fits(offset, len, max_size) && self.status.is_present() {
            self.after_write(offset, len)
        } else {
            self
        }
    }

    /// How a write of `len` bytes at `offset` is answered.
    pub open spec fn write_outcome(self, offset: u64, len: usize, mtime: Timestamp, max_size: u64) -> Result<
        WritePlan,
        Error,
    > {
        if !Self::write_fits(offset, len, max_size) {
            Err(Error::FileTooLarge)
        } else {
            match self.status {
                Status::Downloading { .. } => Ok(WritePlan::Wait),
                Status::Invalidated => Err(Error::Invalidated),
                Status::DownloadFailed => Err(Error::DownloadFailed),
                _ => Ok(
                    WritePlan::Store {
                        offset,
                        grown: (self.after_write(offset, len).file_size - self.file_size) as u64,
                        epoch: self.next_epoch,
                        attr: UpdatedFileAttr {
                            item_id: self.item_id,
                            size: self.after_write(offset, len).file_size,
                            mtime,
                            c_tag: None,
                        },
                    },
                ),
            }
        }
    }

    /// Decides on a write of `len` bytes at `offset`.
    ///
    /// A write that would reach beyond `max_size` fails with `FileTooLarge`,
    /// whatever the status. A downloading slot asks to wait. An invalidated or
    /// failed slot refuses. An available or dirty slot queues an upload,
    /// grows to hold the write and reports its attributes, with the content
    /// tag unknown.
    pub fn write(&mut self, offset: u64, len: usize, mtime: Timestamp, max_size: u64) -> (res: Result<
        WritePlan,
        Error,
    >)
        requires
            old(self).wf(),
        ensures
            final(self).wf(),
            res == old(self).write_outcome(offset, len, mtime, max_size),
            *final(self) == old(self).written_to(offset, len, max_size),
    {
        let end: u64 = match offset.checked_add(len as u64) {
            Some(end) => end,
            None => {
                return Err(Error::FileTooLarge);
            },
        };
        if max_size < end {
            return Err(Error::FileTooLarge);
        }
        match self.status {
            Status::Downloading { .. } => {
                return Ok(WritePlan::Wait);
            },
            Status::Invalidated => {
                return Err(Error::Invalidated);
            },
            Status::DownloadFailed => {
                return Err(Error::DownloadFailed);
            },
            _ => {},
        }
        let epoch = self.queue_upload();
        let new_size: u64 = if self.file_size < end {
            end
        } else {
            self.file_size
        };
        let grown: u64 = new_size - self.file_size;
        self.file_size = new_size;
        self.available_size = new_size;
        Ok(
            WritePlan::Store {
                offset,
                grown,
                epoch,
                attr: UpdatedFileAttr { item_id: self.item_id.clone(), size: new_size, mtime, c_tag: None },
            },
        )
    }

    /// The slot after a truncation to `new_size`.
    pub open spec fn after_truncate(self, new_size: u64, mtime: Timestamp) -> SlotState {
        match self.status {
            Status::Downloading { .. } => {
                let cap = if self.download_cap() < new_size { self.download_cap() } else { new_size };
                SlotState {
                    status: Status::Downloading { truncate: Some((cap, mtime)) },
                    file_size: new_size,
                    ..self
                }
            },
            Status::Available | Status::Dirty { .. } => SlotState {
                file_size: new_size,
                ..self
            }.queued(),
            _ => self,
        }
    }

    /// How a truncation is answered.
    pub open spec fn truncate_outcome(self, new_size: u64) -> TruncatePlan {
        match self.status {
            Status::Downloading { .. } => TruncatePlan::Resize { len: new_size, upload: None },
            Status::Available | Status::Dirty { .. } => TruncatePlan::Resize {
                len: new_size,
                upload: Some(self.next_epoch),
            },
            _ => TruncatePlan::Refetch,
        }
    }

    /// Decides on a truncation to `new_size`.
    ///
    /// A downloading slot takes the new size at once, lowers the number of
    /// bytes that it still takes from the download and remembers `mtime`; the
    /// upload follows when the download completes. An available or dirty slot
    /// takes the new size and queues an upload. A failed or invalidated slot
    /// stays as it is and has to be fetched anew.
    pub fn truncate(&mut self, new_size: u64, mtime: Timestamp) -> (plan: TruncatePlan)
        requires
            old(self).wf(),
        ensures
            final(self).wf(),
            *final(self) == old(self).after_truncate(new_size, mtime),
            plan == old(self).truncate_outcome(new_size),
    {
        match self.status {
            Status::Downloading { truncate } => {
                let cap: u64 = match truncate {
                    Some((cap, _)) => cap,
                    None => self.file_size,
                };
                let cap: u64 = if cap < new_size {
                    cap
                } else {
                    new_size
                };
                self.status = Status::Downloading { truncate: Some((cap, mtime)) };
                self.file_size = new_size;
                TruncatePlan::Resize { len: new_size, upload: None }
            },
            Status::Available | Status::Dirty { .. } => {
                self.file_size = new_size;
                let epoch = self.queue_upload();
                TruncatePlan::Resize { len: new_size, upload: Some(epoch) }
            },
            _ => TruncatePlan::Refetch,
        }
    }

    /// How a flush is answered.
    pub open spec fn flush_outcome(self) -> Result<FlushPlan, Error> {
        match self.status {
            Status::DownloadFailed => Err(Error::DownloadFailed),
            Status::Available | Status::Invalidated => Ok(FlushPlan::Done),
            Status::Downloading { .. } => Ok(FlushPlan::WaitDownload),
            Status::Dirty { epoch, flush_armed } => Ok(FlushPlan::WaitUpload { epoch, trigger: flush_armed }),
        }
    }

    /// The slot after a flush has asked it: the upload of a dirty slot is
    /// triggered no more than once.
    pub open spec fn after_flush(self) -> SlotState {
        match self.status {
            Status::Dirty { epoch, .. } => self.with_status(Status::Dirty { epoch, flush_armed: false }),
            _ => self,
        }
    }

    /// Decides what a flush has to wait for.
    ///
    /// A failed slot refuses. An available or invalidated slot has nothing
    /// pending. A downloading slot asks to wait for the download. A dirty slot
    /// asks to wait for its upload, and the first flush of an upload also
    /// triggers it.
    pub fn flush(&mut self) -> (res: Result<FlushPlan, Error>)
        requires
            old(self).wf(),
        ensures
            final(self).wf(),
            res == old(self).flush_outcome(),
            *final(self) == old(self).after_flush(),
    {
        match self.status {
            Status::DownloadFailed => Err(Error::DownloadFailed),
            Status::Available | Status::Invalidated => Ok(FlushPlan::Done),
            Status::Downloading { .. } => Ok(FlushPlan::WaitDownload),
            Status::Dirty { epoch, flush_armed } => {
                self.status = Status::Dirty { epoch, flush_armed: false };
                Ok(FlushPlan::WaitUpload { epoch, trigger: flush_armed })
            },
        }
    }

    /// Whether the writer goes on with the download. It stops when the slot
    /// is not downloading, and when nobody but the writer holds a slot that
    /// has no truncation pending.
    pub open spec fn writer_goes_on(self, sole_owner: bool) -> bool {
        match self.status {
            Status::Downloading { truncate: Some(_) } => true,
            Status::Downloading { truncate: None } => !sole_owner,
            _ => false,
        }
    }

    /// How many bytes of a chunk of `len` bytes the writer stores.
    pub open spec fn taken(self, len: nat) -> nat {
        let rest = if self.available_size < self.download_cap() {
            (self.download_cap() - self.available_size) as nat
        } else {
            0
        };
        if len < rest {
            len
        } else {
            rest
        }
    }

    /// The slot once the download is complete: dirty if a truncation was
    /// pending, else available.
    pub open spec fn completed(self) -> SlotState {
        match self.status {
            Status::Downloading { truncate: Some(_) } => self.queued(),
            _ => SlotState { status: Status::Available, available_size: self.file_size, ..self },
        }
    }

    /// The slot after the writer handled a chunk of `len` bytes.
    pub open spec fn after_chunk(self, len: nat, sole_owner: bool) -> SlotState {
        if !self.writer_goes_on(sole_owner) {
            self
        } else {
            let pos = (self.available_size + self.taken(len)) as u64;
            if pos < self.download_cap() {
                SlotState { available_size: pos, ..self }
            } else {
                self.completed()
            }
        }
    }

    fn complete(&mut self) -> (upload: Option<u64>)
        requires
            old(self).status is Downloading,
            old(self).download_cap() <= old(self).available_size,
            old(self).wf(),
        ensures
            *final(self) == old(self).completed(),
            final(self).wf(),
            final(self).status.is_present(),
            upload == match old(self).status {
                Status::Downloading { truncate: Some(_) } => Some(old(self).next_epoch),
                _ => None,
            },
    {
        match self.status {
            Status::Downloading { truncate: Some(_) } => Some(self.queue_upload()),
            _ => {
                self.status = Status::Available;
                self.available_size = self.file_size;
                None
            },
        }
    }

    /// Hands a chunk of the download to the writer.
    ///
    /// The writer stops if the slot is not downloading, or if `sole_owner`
    /// says that only the writer still holds the slot and no truncation is
    /// pending. Otherwise it stores the chunk at its position, cut to what is
    /// still wanted of the download, and moves on. When the wanted bytes are
    /// all there the download is complete: the whole file becomes available
    /// and the slot turns dirty if a truncation was pending, else available.
    pub fn accept_chunk(&mut self, chunk: Bytes, sole_owner: bool) -> (step: WriterStep)
        requires
            old(self).wf(),
        ensures
            final(self).wf(),
            *final(self) == old(self).after_chunk(chunk_bytes(chunk).len(), sole_owner),
            step.matches_plan(*old(self), *final(self), chunk_bytes(chunk), sole_owner),
            old(self).status is Downloading && final(self).status is Downloading
                ==> old(self).available_size <= final(self).available_size,
    {
        let cap: u64 = match self.status {
            Status::Downloading { truncate: Some((cap, _)) } => cap,
            Status::Downloading { truncate: None } => {
                if sole_owner {
                    return WriterStep::Abort;
                }
                self.file_size
            },
            _ => {
                return WriterStep::Abort;
            },
        };
        let mut data = chunk;
        let offset: u64 = self.available_size;
        let rest: u64 = cap.saturating_sub(offset);
        let len: usize = chunk_len(&data);
        if rest < len as u64 {
            chunk_truncate(&mut data, rest as usize);
        }
        let taken: usize = chunk_len(&data);
        assert(taken == old(self).taken(chunk_bytes(chunk).len()));
        assert(chunk_bytes(data) =~= chunk_bytes(chunk).take(taken as int));
        let pos: u64 = offset + taken as u64;
        self.available_size = pos;
        if pos < cap {
            WriterStep::Store { offset, data, finished: false, upload: None }
        } else {
            let upload = self.complete();
            WriterStep::Store { offset, data, finished: true, upload }
        }
    }

    /// The slot after the download ended.
    pub open spec fn after_download_end(self) -> SlotState {
        match self.status {
            Status::Downloading { .. } => if self.available_size < self.download_cap() {
                self.with_status(Status::DownloadFailed)
            } else {
                self.completed()
            },
            _ => self,
        }
    }

    /// How the download ends when no more chunks arrive.
    pub open spec fn download_end(self) -> DownloadEnd {
        match self.status {
            Status::Downloading { truncate } => if self.available_size < self.download_cap() {
                DownloadEnd::Failed
            } else {
                DownloadEnd::Complete {
                    upload: if truncate is Some {
                        Some(self.next_epoch)
                    } else {
                        None
                    },
                }
            },
            _ => DownloadEnd::Aborted,
        }
    }

    /// Tells the slot that no more chunks will arrive.
    ///
    /// If wanted bytes are missing the slot turns `DownloadFailed`. If none is
    /// missing (the file was set to a larger size than the remote file has)
    /// the download is complete. A slot that is not downloading stays as it is.
    pub fn finish_download(&mut self) -> (end: DownloadEnd)
        requires
            old(self).wf(),
        ensures
            final(self).wf(),
            *final(self) == old(self).after_download_end(),
            end == old(self).download_end(),
    {
        let cap: u64 = match self.status {
            Status::Downloading { truncate: Some((cap, _)) } => cap,
            Status::Downloading { truncate: None } => self.file_size,
            _ => {
                return DownloadEnd::Aborted;
            },
        };
        if self.available_size < cap {
            self.status = Status::DownloadFailed;
            DownloadEnd::Failed
        } else {
            let upload = self.complete();
            DownloadEnd::Complete { upload }
        }
    }

    /// Whether the upload tagged `epoch` is still the one that the slot
    /// waits for.
    pub open spec fn upload_is_current(self, epoch: u64) -> bool {
        self.status matches Status::Dirty { epoch: current, .. } && current == epoch
    }

    /// Asks whether the upload tagged `epoch` is to go ahead. If the slot is
    /// still dirty under that tag, the answer is the number of bytes to read
    /// from the start of the cache file and to upload: the whole file. If not,
    /// the upload was given up for a newer one and has to stop.
    pub fn begin_upload(&self, epoch: u64) -> (len: Option<u64>)
        ensures
            len == if self.upload_is_current(epoch) {
                Some(self.file_size)
            } else {
                None
            },
    {
        match self.status {
            Status::Dirty { epoch: current, .. } => {
                if current == epoch {
                    Some(self.file_size)
                } else {
                    None
                }
            },
            _ => None,
        }
    }

    /// The slot after the upload tagged `epoch` succeeded and the remote side
    /// gave the file the content tag `c_tag`.
    pub open spec fn after_upload(self, epoch: u64, c_tag: String) -> SlotState {
        if self.upload_is_current(epoch) {
            SlotState { status: Status::Available, c_tag, ..self }
        } else {
            self
        }
    }

    /// What is announced after the upload tagged `epoch` succeeded.
    pub open spec fn upload_event(self, epoch: u64, size: u64, mtime: Timestamp, c_tag: String) -> Option<
        UpdatedFileAttr,
    > {
        if self.upload_is_current(epoch) {
            Some(UpdatedFileAttr { item_id: self.item_id, size, mtime, c_tag: Some(c_tag) })
        } else {
            None
        }
    }

    /// Tells the slot that the upload tagged `epoch` succeeded and that the
    /// remote side now reports `size`, `mtime` and `c_tag` for the file.
    ///
    /// If the slot is still dirty under that tag it turns available, takes
    /// the content tag, and the attributes to announce are returned. In any
    /// other case (a newer upload is queued, the slot was invalidated) nothing
    /// changes and nothing is announced.
    pub fn finish_upload(&mut self, epoch: u64, size: u64, mtime: Timestamp, c_tag: String) -> (event:
        Option<UpdatedFileAttr>)
        requires
            old(self).wf(),
        ensures
            final(self).wf(),
            *final(self) == old(self).after_upload(epoch, c_tag),
            event == old(self).upload_event(epoch, size, mtime, c_tag),
    {
        match self.status {
            Status::Dirty { epoch: current, .. } => {
                if current != epoch {
                    return None;
                }
            },
            _ => {
                return None;
            },
        }
        self.status = Status::Available;
        let attr = UpdatedFileAttr {
            item_id: self.item_id.clone(),
            size,
            mtime,
            c_tag: Some(c_tag.clone()),
        };
        self.c_tag = c_tag;
        Some(attr)
    }

    /// Marks the slot as invalidated.
    pub fn invalidate(&mut self)
        ensures
            *final(self) == old(self).with_status(Status::Invalidated),
            old(self).wf() ==> final(self).wf(),
    {
        self.status = Status::Invalidated;
    }
}

/// Whether `after` can follow `before` in the life of a slot: a slot that is
/// not downloading does not start to, and a slot that is failed or
/// invalidated stays exactly as it is.
pub open spec fn follows(before: SlotState, after: SlotState) -> bool {
    &&& !(before.status is Downloading) ==> !(after.status is Downloading)
    &&& before.status is DownloadFailed || before.status is Invalidated ==> after == before
    &&& after.item_id == before.item_id
}

/// No event takes a slot back: a download that is over does not start again,
/// and neither a write, a truncation, a flush, a chunk, the end of the
/// download nor a finished upload changes a slot that is failed or
/// invalidated. Invalidating is the only way out of a failed download.
pub proof fn law_no_way_back(
    slot: SlotState,
    offset: u64,
    len: usize,
    new_size: u64,
    mtime: Timestamp,
    chunk_len: nat,
    sole_owner: bool,
    epoch: u64,
    c_tag: String,
    max_size: u64,
)
    requires
        slot.wf(),
    ensures
        follows(slot, slot.written_to(offset, len, max_size)),
        follows(slot, slot.after_truncate(new_size, mtime)),
        follows(slot, slot.after_flush()),
        follows(slot, slot.after_chunk(chunk_len, sole_owner)),
        follows(slot, slot.after_download_end()),
        follows(slot, slot.after_upload(epoch, c_tag)),
        slot.can_queue() ==> follows(slot, slot.queued()),
{
}

/// What an upload sends is the file as it stands when the upload asks: an
/// upload whose tag is current is told to read as many bytes from the start
/// of the cache file as the file has, and a cache file of that length read
/// so is the cache file itself, byte for byte.
pub proof fn law_upload_snapshot(slot: SlotState, content: Seq<u8>, epoch: u64)
    requires
        slot.upload_is_current(epoch),
        content.len() == slot.file_size,
    ensures
        slot.status is Dirty,
        read_range(content, 0, slot.file_size as nat).len() == slot.file_size,
        read_range(content, 0, slot.file_size as nat) == content,
{
    assert(read_range(content, 0, slot.file_size as nat) =~= content);
}

/// An upload that a newer write has overtaken ends in nothing, and the
/// newer upload takes its place. After a write to a dirty slot the tag of
/// the older upload is no longer current: the older upload is told to stop,
/// and if it has finished on the remote side it announces nothing and leaves
/// status and content tag as they are. The upload that the write queued
/// reads the whole file; its success makes the slot available, stores the
/// content tag and is announced once.
pub proof fn law_superseded_upload(
    slot: SlotState,
    offset: u64,
    len: usize,
    max_size: u64,
    size: u64,
    mtime: Timestamp,
    older_tag: String,
    newer_tag: String,
)
    requires
        slot.wf(),
        slot.status is Dirty,
        SlotState::write_fits(offset, len, max_size),
    ensures
        ({
            let older = slot.status->Dirty_epoch;
            let newer = slot.next_epoch;
            let two = slot.written_to(offset, len, max_size);
            let done = two.after_upload(newer, newer_tag);
            &&& older != newer
            &&& !two.upload_is_current(older)
            &&& two.after_upload(older, older_tag) == two
            &&& two.upload_event(older, size, mtime, older_tag) is None
            &&& two.status == (Status::Dirty { epoch: newer, flush_armed: true })
            &&& two.upload_is_current(newer)
            &&& done.status == Status::Available
            &&& done.c_tag == newer_tag
            &&& done.file_size == two.file_size
            &&& two.upload_event(newer, size, mtime, newer_tag) == Some(
                UpdatedFileAttr { item_id: slot.item_id, size, mtime, c_tag: Some(newer_tag) },
            )
            &&& done.upload_event(newer, size, mtime, newer_tag) is None
        }),
{
}

/// An upload that finishes on an invalidated slot ends in nothing: whatever
/// its tag, it is told to stop, it announces nothing, the slot stays
/// invalidated and keeps its content tag, and a read that asks for bytes
/// fails with `Invalidated`.
pub proof fn law_invalidated_upload(
    slot: SlotState,
    epoch: u64,
    size: u64,
    mtime: Timestamp,
    c_tag: String,
    offset: u64,
    len: usize,
)
    ensures
        ({
            let dead = slot.with_status(Status::Invalidated);
            &&& !dead.upload_is_current(epoch)
            &&& dead.after_upload(epoch, c_tag) == dead
            &&& dead.upload_event(epoch, size, mtime, c_tag) is None
            &&& dead.c_tag == slot.c_tag
            &&& offset < dead.file_size && len > 0 ==> dead.read_outcome(offset, len) == Err::<
                ReadPlan,
                Error,
            >(Error::Invalidated)
        }),
{
}

/// Whether the first `n` bytes of the cache file are the first `n` bytes
/// that the download delivered.
pub open spec fn matches_stream(content: Seq<u8>, received: Seq<u8>, n: nat) -> bool {
    &&& n <= content.len()
    &&& n <= received.len()
    &&& forall|i: int| 0 <= i < n ==> content[i] == #[trigger] received[i]
}

/// What of the download is in the cache file: the position of the writer,
/// but no more than is wanted of the download.
pub open spec fn downloaded(slot: SlotState) -> nat {
    if slot.available_size < slot.download_cap() {
        slot.available_size as nat
    } else {
        slot.download_cap() as nat
    }
}

/// While the download runs, the bytes in front of the writer are those of
/// the download: if that holds before a chunk is stored as
/// [`SlotState::accept_chunk`] plans it, it holds afterwards of the bytes up
/// to the new position of the writer.
pub proof fn law_chunk_extends_prefix(
    slot: SlotState,
    content: Seq<u8>,
    received: Seq<u8>,
    chunk: Seq<u8>,
    sole_owner: bool,
)
    requires
        slot.wf(),
        slot.writer_goes_on(sole_owner),
        content.len() == slot.file_size,
        received.len() == slot.available_size,
        matches_stream(content, received, downloaded(slot)),
    ensures
        ({
            let taken = slot.taken(chunk.len());
            let stored = written(content, slot.available_size as nat, chunk.take(taken as int));
            &&& stored.len() == content.len()
            &&& matches_stream(stored, received + chunk, downloaded(slot) + taken)
        }),
{
    let taken = slot.taken(chunk.len());
    let stored = written(content, slot.available_size as nat, chunk.take(taken as int));
    assert forall|i: int| 0 <= i < downloaded(slot) + taken implies stored[i] == #[trigger] (received
        + chunk)[i] by {
        if i >= slot.available_size {
            assert((received + chunk)[i] == chunk[i - slot.available_size]);
        } else {
            assert((received + chunk)[i] == received[i]);
        }
    }
}

/// A truncation while the download runs keeps the downloaded bytes that the
/// new size leaves in the file.
pub proof fn law_truncate_keeps_prefix(
    slot: SlotState,
    content: Seq<u8>,
    received: Seq<u8>,
    new_size: u64,
    mtime: Timestamp,
)
    requires
        slot.wf(),
        slot.status is Downloading,
        content.len() == slot.file_size,
        matches_stream(content, received, downloaded(slot)),
    ensures
        matches_stream(
            resized(content, new_size as nat),
            received,
            downloaded(slot.after_truncate(new_size, mtime)),
        ),
{
    let after = slot.after_truncate(new_size, mtime);
    let cut = resized(content, new_size as nat);
    assert(after.download_cap() <= slot.download_cap());
    assert(after.download_cap() <= new_size);
    assert(after.available_size == slot.available_size);
    assert(downloaded(after) <= downloaded(slot));
    assert(cut.len() == new_size);
    assert forall|i: int| 0 <= i < downloaded(after) implies cut[i] == #[trigger] received[i] by {
        assert(cut[i] == content[i]);
    }
}

/// While a slot stays downloading, `available_size` never goes down: not by
/// a chunk and not by a truncation.
pub proof fn law_available_size_monotone(
    slot: SlotState,
    len: nat,
    sole_owner: bool,
    new_size: u64,
    mtime: Timestamp,
)
    requires
        slot.wf(),
        slot.status is Downloading,
    ensures
        slot.after_chunk(len, sole_owner).status is Downloading ==> slot.available_size
            <= slot.after_chunk(len, sole_owner).available_size,
        slot.after_truncate(new_size, mtime).status is Downloading,
        slot.after_truncate(new_size, mtime).available_size == slot.available_size,
{
}

/// A read that follows a write of `data` at the same offset and of the same
/// length returns `data`, on a slot that is available or dirty.
pub proof fn law_write_then_read(slot: SlotState, content: Seq<u8>, offset: u64, data: Seq<u8>)
    requires
        slot.wf(),
        slot.status.is_present(),
        content.len() == slot.file_size,
        offset + data.len() <= u64::MAX,
        data.len() <= usize::MAX,
    ensures
        ({
            let after = slot.after_write(offset, data.len() as usize);
            let stored = written(content, offset as nat, data);
            &&& data.len() > 0 || offset <= slot.file_size ==> stored.len() == after.file_size
            &&& after.read_outcome(offset, data.len() as usize) matches Ok(plan) && plan.bytes(stored)
                == data
        }),
{
    if data.len() > 0 {
        lemma_read_after_write(content, offset as nat, data);
    } else {
        assert(data =~= Seq::<u8>::empty());
    }
}

/// A truncation to the current size leaves the cache file as it is and still
/// queues an upload, on a slot that is available or dirty.
pub proof fn law_truncate_to_same_size(slot: SlotState, content: Seq<u8>, mtime: Timestamp)
    requires
        slot.wf(),
        slot.status.is_present(),
        content.len() == slot.file_size,
    ensures
        resized(content, slot.file_size as nat) == content,
        slot.after_truncate(slot.file_size, mtime) == slot.queued(),
        slot.after_truncate(slot.file_size, mtime).upload_is_current(slot.next_epoch),
{
    lemma_resize_to_same_len(content);
}

/// Writes that are collected into one upload are uploaded together: after
/// any two writes only the upload queued by the second is still current, and
/// what it reads, the whole file, holds both writes, the second over the
/// first where they overlap.
pub proof fn law_coalesced_upload(
    slot: SlotState,
    content: Seq<u8>,
    first_offset: u64,
    first: Seq<u8>,
    second_offset: u64,
    second: Seq<u8>,
)
    requires
        slot.wf(),
        slot.status.is_present(),
        content.len() == slot.file_size,
        first_offset + first.len() <= u64::MAX,
        second_offset + second.len() <= u64::MAX,
        first.len() <= usize::MAX,
        second.len() <= usize::MAX,
        first.len() > 0 || first_offset <= slot.file_size,
        second.len() > 0 || second_offset
            <= slot.after_write(first_offset, first.len() as usize).file_size,
    ensures
        ({
            let one = slot.after_write(first_offset, first.len() as usize);
            let two = one.after_write(second_offset, second.len() as usize);
            let stored = written(
                written(content, first_offset as nat, first),
                second_offset as nat,
                second,
            );
            &&& !two.upload_is_current(slot.next_epoch)
            &&& two.upload_is_current(one.next_epoch)
            &&& stored.len() == two.file_size
            &&& read_range(stored, 0, two.file_size as nat) == stored
            &&& forall|i: int|
                second_offset <= i < second_offset + second.len() ==> #[trigger] stored[i] == second[i
                    - second_offset]
            &&& forall|i: int|
                first_offset <= i < first_offset + first.len() && !(second_offset <= i < second_offset
                    + second.len()) ==> #[trigger] stored[i] == first[i - first_offset]
        }),
{
    let one = slot.after_write(first_offset, first.len() as usize);
    let two = one.after_write(second_offset, second.len() as usize);
    let stored = written(written(content, first_offset as nat, first), second_offset as nat, second);
    assert(read_range(stored, 0, two.file_size as nat) =~= stored);
}

} // verus!
