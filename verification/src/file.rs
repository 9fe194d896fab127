//! The pool of open files, its configuration and what it reports.

use vstd::prelude::*;
use bytes::Bytes;
use crate::chunk::chunk_bytes;
use crate::disk_cache::{
    after_sync,
    Limits,
    lemma_lookup_slot,
    lemma_with_state_same,
    Alloc,
    CacheModel,
    DiskCache,
    RemoteChange,
    SlotEntry,
};
use crate::error::{Error, Timestamp};
use crate::lru::{lookup, touched};
use crate::handles::{table_entries, table_get, table_insert, table_new, table_remove, HandleTable, Handles};
use crate::slot::{DownloadEnd, FlushPlan, ReadPlan, SlotState, Status, TruncatePlan, WritePlan, WriterStep};

verus! {

/// Limits of the downloader.
#[derive(Clone, Copy, Debug, PartialEq, Eq)]
pub struct DownloadConfig {
    /// How many times a failed range request is tried again.
    pub max_retry: usize,
    /// Seconds to wait between two tries.
    pub retry_delay: u64,
    /// How many chunks an uncached stream may hold back.
    pub stream_buffer_chunks: usize,
}

/// Limits of the disk cache.
#[derive(Clone, Debug, PartialEq, Eq)]
pub struct DiskCacheConfig {
    /// Whether files are cached on disk at all.
    pub enable: bool,
    /// The directory that holds the cache files.
    pub path: String,
    /// The largest file, in bytes, that is cached.
    pub max_cached_file_size: u64,
    /// The largest number of cached files.
    pub max_files: usize,
    /// The byte budget of all cached files together.
    pub max_total_size: u64,
}

/// Limits of the uploader.
#[derive(Clone, Copy, Debug, PartialEq, Eq)]
pub struct UploadConfig {
    /// The largest size, in bytes, that a written file may reach.
    pub max_size: u64,
    /// Seconds during which writes are collected before the upload starts.
    pub flush_delay: u64,
    /// Seconds to wait before a failed upload is tried again.
    pub retry_delay: u64,
}

/// Configuration of the file pool.
#[derive(Clone, Debug, PartialEq, Eq)]
pub struct Config {
    pub disk_cache: DiskCacheConfig,
    pub download: DownloadConfig,
    pub upload: UploadConfig,
}

/// What a file handle stands for.
#[derive(Clone, Copy, Debug, PartialEq, Eq)]
pub enum File {
    /// A file of `file_size` bytes that is read straight from its download.
    Streaming { file_size: u64 },
    /// A file that is served from the cache slot `slot`.
    Cached { slot: usize },
}

/// The attributes of a file after a write or an upload.
#[derive(Clone, Debug, PartialEq, Eq)]
pub struct UpdatedFileAttr {
    pub item_id: String,
    pub size: u64,
    pub mtime: Timestamp,
    /// `None` while the content tag is not known yet.
    pub c_tag: Option<String>,
}

/// What is to be started for a file that was just opened or truncated.
#[derive(Clone, Copy, Debug, PartialEq, Eq)]
pub enum Start {
    /// Nothing: the slot was there already.
    Nothing,
    /// The download of the file into the new cache slot `slot`, whose cache
    /// file has the length `file_size`.
    Download { slot: usize, file_size: u64 },
    /// The download of the file into a stream that belongs to the handle.
    Stream { file_size: u64 },
}

/// A file that was opened: its handle and what is to be started for it.
#[derive(Clone, Copy, Debug, PartialEq, Eq)]
pub struct Opened {
    pub fh: u64,
    pub start: Start,
}

/// How a read on a handle is served.
#[derive(Clone, Copy, Debug, PartialEq, Eq)]
pub enum ReadStep {
    /// From the stream of the handle: read `size` bytes at the offset asked
    /// for.
    Stream { size: usize },
    /// From the cache slot `slot`, as `plan` says.
    Cached { slot: usize, plan: ReadPlan },
}

/// How a truncation by item id goes on.
#[derive(Clone, Copy, Debug, PartialEq, Eq)]
pub enum TruncateStep {
    /// Set the length of the cache file of `slot` to `len`; with `upload`,
    /// start the upload with that tag.
    Resize { slot: usize, len: u64, upload: Option<u64> },
    /// No usable slot holds the file: fetch its size and content tag from
    /// the remote side and go on with [`FilePool::truncate_fetched`].
    NeedMeta,
}

/// What a flush by item id has to wait for.
#[derive(Clone, Copy, Debug, PartialEq, Eq)]
pub enum Flush {
    /// Nothing is pending.
    Done,
    /// Wait as `plan` says for the slot `slot`, which is held meanwhile,
    /// then go on with [`FilePool::flush_resume`].
    Wait { slot: usize, plan: FlushPlan },
}

/// The keys of the handles that stand for the cache slot `v`.
pub open spec fn holder_keys(files: Handles, v: usize) -> Set<usize> {
    files.dom().filter(|k: usize| files[k] == File::Cached { slot: v })
}

/// How many handles stand for the cache slot `v`.
pub open spec fn holders(files: Handles, v: usize) -> nat {
    holder_keys(files, v).len()
}

/// A new handle counts for its own slot and for no other.
proof fn lemma_holders_insert(files: Handles, k: usize, file: File, v: usize)
    requires
        files.dom().finite(),
        !files.dom().contains(k),
    ensures
        files.insert(k, file).dom().finite(),
        holders(files.insert(k, file), v) == holders(files, v) + if file == (File::Cached { slot: v }) {
            1nat
        } else {
            0nat
        },
{
    files.dom().lemma_len_filter(|j: usize| files[j] == File::Cached { slot: v });
    if file == (File::Cached { slot: v }) {
        assert(holder_keys(files.insert(k, file), v) =~= holder_keys(files, v).insert(k));
    } else {
        assert(holder_keys(files.insert(k, file), v) =~= holder_keys(files, v));
    }
}

/// A closed handle counts no longer for its slot.
proof fn lemma_holders_remove(files: Handles, k: usize, v: usize)
    requires
        files.dom().finite(),
        files.dom().contains(k),
    ensures
        files.remove(k).dom().finite(),
        holders(files, v) == holders(files.remove(k), v) + if files[k] == (File::Cached { slot: v }) {
            1nat
        } else {
            0nat
        },
{
    files.dom().lemma_len_filter(|j: usize| files[j] == File::Cached { slot: v });
    if files[k] == (File::Cached { slot: v }) {
        assert(holder_keys(files.remove(k), v) =~= holder_keys(files, v).remove(k));
    } else {
        assert(holder_keys(files.remove(k), v) =~= holder_keys(files, v));
    }
}

/// The pool of open files.
pub struct FilePool {
    handles: HandleTable,
    disk_cache: Option<DiskCache>,
    config: Config,
}

impl FilePool {
    /// The open files by their keys.
    pub closed spec fn files(&self) -> Handles {
        table_entries(self.handles)
    }

    /// Whether files are cached.
    pub closed spec fn caching(&self) -> bool {
        self.disk_cache is Some
    }

    /// What the disk cache holds, if files are cached.
    pub closed spec fn cache(&self) -> CacheModel {
        self.disk_cache->0@
    }

    /// The limits of the pool.
    pub closed spec fn config(&self) -> Config {
        self.config
    }

    /// What holds of every pool.
    pub closed spec fn wf(&self) -> bool {
        &&& self.disk_cache matches Some(cache) ==> cache.wf() && cache.max_cached_file_size()
            == self.config.disk_cache.max_cached_file_size && cache.max_files()
            == self.config.disk_cache.max_files && cache.max_total_size()
            == self.config.disk_cache.max_total_size
        &&& self.caching() == self.config.disk_cache.enable
        &&& self.files().dom().finite()
        &&& forall|v: usize| #[trigger] holders(self.files(), v) <= self.held(v)
    }

    /// How many open files hold the cache slot `v`, as the disk cache
    /// counts them.
    pub closed spec fn held(&self, v: usize) -> nat {
        if self.disk_cache is Some {
            self.disk_cache->0@.pins_of(v as int)
        } else {
            0
        }
    }

    /// The open file under a handle, if the handle is live.
    pub open spec fn file(&self, fh: u64) -> Option<File> {
        if fh <= usize::MAX && self.files().dom().contains(fh as usize) {
            Some(self.files()[fh as usize])
        } else {
            None
        }
    }

    /// What every pool that is in order gives its users.
    pub proof fn lemma_wf(&self)
        requires
            self.wf(),
        ensures
            self.caching() == self.config().disk_cache.enable,
            self.caching() ==> self.cache().wf(),
    {
        if self.caching() {
            self.disk_cache->0.lemma_wf();
        }
    }

    /// The disk cache of the pool, if files are cached.
    pub fn disk_cache(&self) -> (cache: Option<&DiskCache>)
        ensures
            cache is Some == self.caching(),
            cache matches Some(c) ==> c@ == self.cache(),
    {
        self.disk_cache.as_ref()
    }

    /// Looks up the slot of an item, which counts as a use. Without disk
    /// cache no item has a slot.
    pub fn slot_of(&mut self, item_id: &str) -> (slot: Option<usize>)
        requires
            old(self).wf(),
        ensures
            final(self).wf(),
            final(self).config() == old(self).config(),
            final(self).caching() == old(self).caching(),
            final(self).files() == old(self).files(),
            old(self).caching() && old(self).cache().accounted() ==> final(self).cache().accounted(),
            slot == if old(self).caching() {
                lookup(old(self).cache().entries, item_id@)
            } else {
                None
            },
            old(self).caching() ==> final(self).cache() == (CacheModel {
                entries: touched(old(self).cache().entries, item_id@),
                ..old(self).cache()
            }),
    {
        match &mut self.disk_cache {
            Some(cache) => cache.get(item_id),
            None => None,
        }
    }

    /// The open file under a handle, if the handle is live.
    pub fn get(&self, fh: u64) -> (file: Option<File>)
        ensures
            file == self.file(fh),
    {
        match Self::fh_to_key(fh) {
            Some(key) => table_get(&self.handles, key),
            None => None,
        }
    }

    /// Every handle of a cached file leads to a slot that exists and that
    /// counts the handle among its holders.
    pub proof fn lemma_handle_is_live(&self, fh: u64)
        requires
            self.wf(),
            self.file(fh) is Some,
            self.file(fh)->0 is Cached,
        ensures
            self.caching(),
            self.cache().slot(self.file(fh)->0->slot as int) is Some,
            self.cache().pins_of(self.file(fh)->0->slot as int) >= 1,
    {
        let v = self.file(fh)->0->slot;
        let keys = holder_keys(self.files(), v);
        self.files().dom().lemma_len_filter(|j: usize| self.files()[j] == File::Cached { slot: v });
        assert(keys.contains(fh as usize));
        assert(keys.len() == keys.remove(fh as usize).len() + 1);
        assert(holders(self.files(), v) <= self.held(v));
    }

    /// A pool without open files. With the disk cache enabled, the largest
    /// cached file must fit into the byte budget.
    pub fn new(config: Config) -> (pool: FilePool)
        requires
            config.disk_cache.enable ==> config.disk_cache.max_cached_file_size
                <= config.disk_cache.max_total_size,
        ensures
            pool.wf(),
            pool.config() == config,
            pool.files() == Handles::empty(),
            pool.caching() == config.disk_cache.enable,
            pool.caching() ==> pool.cache() == CacheModel::empty(
                Limits {
                    max_cached_file_size: config.disk_cache.max_cached_file_size,
                    max_files: config.disk_cache.max_files,
                    max_total_size: config.disk_cache.max_total_size,
                },
            ) && pool.cache().accounted(),
    {
        let disk_cache = if config.disk_cache.enable {
            Some(DiskCache::new(&config.disk_cache))
        } else {
            None
        };
        let pool = FilePool { handles: table_new(), disk_cache, config };
        proof {
            assert forall|v: usize| #[trigger] holders(pool.files(), v) <= pool.held(v) by {
                assert(holder_keys(pool.files(), v) =~= Set::<usize>::empty());
            }
        }
        pool
    }

    /// The key of the table that a handle stands for, if there is one.
    fn fh_to_key(fh: u64) -> (key: Option<usize>)
        ensures
            key == if fh <= usize::MAX {
                Some(fh as usize)
            } else {
                None
            },
    {
        if fh <= usize::MAX as u64 {
            Some(fh as usize)
        } else {
            None
        }
    }

    /// Whether `fh` is a new handle of `self` for `file`, compared with the
    /// pool `before`.
    pub open spec fn has_new_handle(&self, before: &FilePool, fh: u64, file: File) -> bool {
        &&& before.file(fh) is None
        &&& fh <= usize::MAX
        &&& self.files() == before.files().insert(fh as usize, file)
    }

    fn insert_handle(handles: &mut HandleTable, file: File) -> (res: Result<u64, Error>)
        requires
            table_entries(*old(handles)).dom().finite(),
        ensures
            table_entries(*final(handles)).dom().finite(),
            match res {
                Ok(fh) => {
                    &&& fh <= usize::MAX
                    &&& !table_entries(*old(handles)).dom().contains(fh as usize)
                    &&& table_entries(*final(handles)) == table_entries(*old(handles)).insert(
                        fh as usize,
                        file,
                    )
                    &&& forall|v: usize| #[trigger]
                        holders(table_entries(*final(handles)), v) == holders(
                            table_entries(*old(handles)),
                            v,
                        ) + if file == (File::Cached { slot: v }) {
                            1nat
                        } else {
                            0nat
                        }
                },
                Err(e) => e == Error::PoolFull && table_entries(*final(handles)) == table_entries(
                    *old(handles),
                ),
            },
    {
        match table_insert(handles, file) {
            Some(key) => {
                proof {
                    assert forall|v: usize| #[trigger]
                        holders(table_entries(*handles), v) == holders(table_entries(*old(handles)), v)
                            + if file == (File::Cached { slot: v }) {
                            1nat
                        } else {
                            0nat
                        } by {
                        lemma_holders_insert(table_entries(*old(handles)), key, file, v);
                    }
                    lemma_holders_insert(table_entries(*old(handles)), key, file, 0);
                }
                Ok(key as u64)
            },
            None => Err(Error::PoolFull),
        }
    }

    /// Whether the handles of a table are all counted by the slots that
    /// they stand for.
    pub open spec fn counted(files: Handles, cache: CacheModel) -> bool {
        &&& files.dom().finite()
        &&& forall|v: usize| #[trigger] holders(files, v) <= cache.pins_of(v as int)
    }

    /// Lets a new handle hold the slot `v`.
    fn attach(cache: &mut DiskCache, handles: &mut HandleTable, v: usize) -> (res: Result<u64, Error>)
        requires
            old(cache).wf(),
            old(cache)@.slot(v as int) is Some,
            Self::counted(table_entries(*old(handles)), old(cache)@),
        ensures
            final(cache).wf(),
            final(cache).same_limits(old(cache)),
            Self::counted(table_entries(*final(handles)), final(cache)@),
            old(cache)@.accounted() ==> final(cache)@.accounted(),
            match res {
                Ok(fh) => {
                    &&& fh <= usize::MAX
                    &&& !table_entries(*old(handles)).dom().contains(fh as usize)
                    &&& table_entries(*final(handles)) == table_entries(*old(handles)).insert(
                        fh as usize,
                        File::Cached { slot: v },
                    )
                    &&& final(cache)@ == old(cache)@.with_slot(
                        v as int,
                        old(cache)@.slots[v as int]->0.pinned(),
                    )
                },
                Err(e) => {
                    &&& e == Error::PoolFull
                    &&& table_entries(*final(handles)) == table_entries(*old(handles))
                    &&& final(cache)@ == old(cache)@
                },
            },
    {
        proof {
            old(cache).lemma_wf();
        }
        match cache.pin(v) {
            Ok(()) => {},
            Err(e) => {
                return Err(e);
            },
        }
        match Self::insert_handle(handles, File::Cached { slot: v }) {
            Ok(fh) => Ok(fh),
            Err(e) => {
                cache.unpin(v);
                proof {
                    let before = old(cache)@;
                    let entry = before.slots[v as int]->0;
                    assert(before.slots.update(v as int, Some(entry.pinned())).update(
                        v as int,
                        Some(entry),
                    ) =~= before.slots);
                }
                Err(e)
            },
        }
    }

    /// Opens the file of an item if that takes no question to the remote
    /// side.
    ///
    /// With the disk cache enabled, an item that has a slot is opened on it:
    /// the lookup counts as a use, the new handle holds the slot, and the
    /// handle is returned. An item without a slot gives `None`: its size and
    /// content tag are to be fetched, and [`FilePool::open_fetched`] goes on.
    /// With the disk cache disabled, opening for writing fails with
    /// `WriteWithoutCache`, and opening for reading gives `None`. If no
    /// handle is to be had, `PoolFull` is returned and no file is opened.
    pub fn open(&mut self, item_id: &str, write_mode: bool) -> (res: Result<Option<u64>, Error>)
        requires
            old(self).wf(),
        ensures
            final(self).wf(),
            final(self).config() == old(self).config(),
            final(self).caching() == old(self).caching(),
            old(self).caching() && old(self).cache().accounted() ==> final(self).cache().accounted(),
            !old(self).caching() ==> final(self).files() == old(self).files() && res == (if write_mode {
                Err::<Option<u64>, Error>(Error::WriteWithoutCache)
            } else {
                Ok(None)
            }),
            old(self).caching() ==> match lookup(old(self).cache().entries, item_id@) {
                None => res == Ok::<Option<u64>, Error>(None)
                    && final(self).files() == old(self).files()
                    && final(self).cache() == old(self).cache(),
                Some(v) => {
                    let used = CacheModel {
                        entries: touched(old(self).cache().entries, item_id@),
                        ..old(self).cache()
                    };
                    match res {
                        Ok(Some(fh)) => final(self).has_new_handle(old(self), fh, File::Cached { slot: v })
                            && final(self).cache() == used.with_slot(
                            v as int,
                            used.slots[v as int]->0.pinned(),
                        ),
                        Ok(None) => false,
                        Err(e) => e == Error::PoolFull && final(self).files() == old(self).files()
                            && final(self).cache() == used,
                    }
                },
            },
    {
        match &mut self.disk_cache {
            Some(cache) => {
                match cache.get(item_id) {
                    Some(v) => match Self::attach(cache, &mut self.handles, v) {
                        Ok(fh) => Ok(Some(fh)),
                        Err(e) => Err(e),
                    },
                    None => Ok(None),
                }
            },
            None => {
                if write_mode {
                    Err(Error::WriteWithoutCache)
                } else {
                    Ok(None)
                }
            },
        }
    }

    /// Opens a streaming handle on a file of `file_size` bytes.
    fn open_stream(handles: &mut HandleTable, file_size: u64) -> (res: Result<Opened, Error>)
        requires
            table_entries(*old(handles)).dom().finite(),
        ensures
            table_entries(*final(handles)).dom().finite(),
            forall|v: usize| #[trigger]
                holders(table_entries(*final(handles)), v) == holders(table_entries(*old(handles)), v),
            match res {
                Ok(opened) => opened.start == (Start::Stream { file_size }) && opened.fh <= usize::MAX
                    && !table_entries(*old(handles)).dom().contains(opened.fh as usize)
                    && table_entries(*final(handles)) == table_entries(*old(handles)).insert(
                    opened.fh as usize,
                    File::Streaming { file_size },
                ),
                Err(e) => e == Error::PoolFull && table_entries(*final(handles)) == table_entries(
                    *old(handles),
                ),
            },
    {
        match Self::insert_handle(handles, File::Streaming { file_size }) {
            Ok(fh) => Ok(Opened { fh, start: Start::Stream { file_size } }),
            Err(e) => Err(e),
        }
    }

    /// Opens the file of an item whose size and content tag were fetched
    /// from the remote side.
    ///
    /// With the disk cache enabled, a slot is asked for as
    /// [`DiskCache::try_alloc_and_fetch`] describes. If there is one, the new
    /// handle holds it; for a slot that was made just now, its download is to
    /// be started. If there is none, opening for writing fails with
    /// `FileTooLarge`, and opening for reading gives a streaming handle whose
    /// download is to be started. With the disk cache disabled, opening for
    /// writing fails with `WriteWithoutCache` and opening for reading gives a
    /// streaming handle. If no handle is to be had, `PoolFull` is returned,
    /// no file is opened, and a slot that was made just now is taken out of
    /// the index again.
    pub fn open_fetched(&mut self, item_id: String, write_mode: bool, file_size: u64, c_tag: String) -> (res:
        Result<Opened, Error>)
        requires
            old(self).wf(),
        ensures
            final(self).wf(),
            final(self).config() == old(self).config(),
            final(self).caching() == old(self).caching(),
            old(self).caching() && old(self).cache().accounted() ==> final(self).cache().accounted(),
            res matches Ok(Opened { fh, start: Start::Download { slot, .. } })
                ==> final(self).cache().slot(
                slot as int,
            ) == Some(
                SlotEntry {
                    state: SlotState::fresh(item_id, file_size, c_tag, None),
                    pins: 1,
                    waits: 0,
                    cached: old(self).config().disk_cache.max_files > 0,
                },
            ) && final(self).file(fh) == Some(File::Cached { slot }),
            res matches Ok(Opened { fh, start: Start::Nothing }) ==> (final(self).file(fh) matches Some(
                File::Cached { slot },
            ) && final(self).cache().slot(slot as int) is Some),
            res matches Ok(opened) && opened.start is Download && old(self).cache().accounted()
                ==> final(self).cache().total <= old(self).config().disk_cache.max_total_size,
            res matches Err(e) ==> final(self).files() == old(self).files()
                && (e == Error::PoolFull || (write_mode
                && old(self).alloc_answer(item_id, file_size, c_tag) is NoSlot
                && e == old(self).refusal(write_mode))),
            res is Err && old(self).caching() ==> final(self).cache() == if old(self).alloc_answer(
                item_id,
                file_size,
                c_tag,
            ) is Created {
                old(self).allocated(item_id, file_size, c_tag).dropped(item_id@)
            } else {
                old(self).allocated(item_id, file_size, c_tag)
            },
            res matches Ok(opened) ==> match old(self).alloc_answer(item_id, file_size, c_tag) {
                Alloc::NoSlot => !write_mode && opened.start == (Start::Stream { file_size })
                    && final(self).has_new_handle(old(self), opened.fh, File::Streaming { file_size })
                    && (old(self).caching() ==> final(self).cache() == old(self).allocated(
                    item_id,
                    file_size,
                    c_tag,
                )),
                Alloc::Existing(v) => opened.start == Start::Nothing && final(self).has_new_handle(
                    old(self),
                    opened.fh,
                    File::Cached { slot: v },
                ) && final(self).cache() == old(self).allocated(item_id, file_size, c_tag).with_slot(
                    v as int,
                    old(self).allocated(item_id, file_size, c_tag).slots[v as int]->0.pinned(),
                ),
                Alloc::Created(v) => opened.start == (Start::Download { slot: v, file_size })
                    && final(self).has_new_handle(old(self), opened.fh, File::Cached { slot: v })
                    && final(self).cache() == old(self).allocated(item_id, file_size, c_tag).with_slot(
                    v as int,
                    old(self).allocated(item_id, file_size, c_tag).slots[v as int]->0.pinned(),
                ),
            },
            old(self).alloc_answer(item_id, file_size, c_tag) is NoSlot && write_mode ==> res == Err::<
                Opened,
                Error,
            >(old(self).refusal(write_mode)),
    {
        let key = item_id.clone();
        match &mut self.disk_cache {
            Some(cache) => {
                proof {
                    cache.lemma_wf();
                }
                match cache.try_alloc_and_fetch(item_id, file_size, c_tag, None) {
                    Alloc::Existing(v) => match Self::attach(cache, &mut self.handles, v) {
                        Ok(fh) => Ok(Opened { fh, start: Start::Nothing }),
                        Err(e) => Err(e),
                    },
                    Alloc::Created(v) => match Self::attach(cache, &mut self.handles, v) {
                        Ok(fh) => Ok(Opened { fh, start: Start::Download { slot: v, file_size } }),
                        Err(e) => {
                            cache.remove(key.as_str());
                            Err(e)
                        },
                    },
                    Alloc::NoSlot => {
                        if write_mode {
                            Err(Error::FileTooLarge)
                        } else {
                            Self::open_stream(&mut self.handles, file_size)
                        }
                    },
                }
            },
            None => {
                if write_mode {
                    Err(Error::WriteWithoutCache)
                } else {
                    Self::open_stream(&mut self.handles, file_size)
                }
            },
        }
    }

    /// The error that refuses a file which gets no slot.
    pub open spec fn refusal(&self, write_mode: bool) -> Error {
        if self.caching() {
            Error::FileTooLarge
        } else {
            Error::WriteWithoutCache
        }
    }

    /// The answer of the disk cache to the request for a downloading slot
    /// for an item; without a disk cache there is no slot.
    pub open spec fn alloc_answer(&self, item_id: String, file_size: u64, c_tag: String) -> Alloc {
        if self.caching() && file_size <= self.config().disk_cache.max_cached_file_size {
            self.cache().alloc_answer(
                SlotState::fresh(item_id, file_size, c_tag, None),
                self.config().disk_cache.max_total_size,
            )
        } else {
            Alloc::NoSlot
        }
    }

    /// The disk cache after the request for a downloading slot for an item.
    pub open spec fn allocated(&self, item_id: String, file_size: u64, c_tag: String) -> CacheModel {
        if file_size <= self.config().disk_cache.max_cached_file_size {
            self.cache().allocated(
                SlotState::fresh(item_id, file_size, c_tag, None),
                self.config().disk_cache.max_total_size,
                self.config().disk_cache.max_files,
            )
        } else {
            self.cache()
        }
    }

    /// Opens a file that was just created empty on the remote side, where
    /// it got the id `item_id` and the content tag `c_tag`.
    ///
    /// With the disk cache disabled this fails with `WriteWithoutCache`.
    /// Otherwise the item gets a new, empty slot as
    /// [`DiskCache::insert_empty`] describes, and the new handle holds it. If
    /// no handle is to be had, `PoolFull` is returned; the slot stays in the
    /// cache, held by nobody.
    pub fn open_create_empty(&mut self, item_id: String, c_tag: String) -> (res: Result<u64, Error>)
        requires
            old(self).wf(),
        ensures
            final(self).wf(),
            final(self).config() == old(self).config(),
            final(self).caching() == old(self).caching(),
            old(self).caching() && old(self).cache().accounted() ==> final(self).cache().accounted(),
            !old(self).caching() ==> res == Err::<u64, Error>(Error::WriteWithoutCache)
                && final(self).files() == old(self).files(),
            old(self).caching() ==> ({
                let placed = old(self).cache().dropped(item_id@).placed(
                    item_id@,
                    SlotState::fresh_empty(item_id, c_tag),
                    1,
                    old(self).config().disk_cache.max_files,
                );
                let v = placed.slots.len() - 1;
                match res {
                    Ok(fh) => final(self).has_new_handle(old(self), fh, File::Cached { slot: v as usize })
                        && final(self).cache() == placed,
                    Err(e) => e == Error::PoolFull && final(self).files() == old(self).files()
                        && final(self).cache()
                        == placed.with_slot(v, placed.slots[v]->0.unpinned()).settled(v),
                }
            }),
    {
        match &mut self.disk_cache {
            Some(cache) => {
                let v = cache.insert_empty(item_id, c_tag);
                match Self::insert_handle(&mut self.handles, File::Cached { slot: v }) {
                    Ok(fh) => Ok(fh),
                    Err(e) => {
                        cache.unpin(v);
                        Err(e)
                    },
                }
            },
            None => Err(Error::WriteWithoutCache),
        }
    }

    /// The disk cache after the handle of the file `file` was closed: the
    /// handle of a cached file lets go of its slot, and a slot that nothing
    /// keeps any more is gone.
    pub open spec fn cache_after_close(&self, file: File) -> CacheModel {
        match file {
            File::Cached { slot } => self.cache().with_slot(
                slot as int,
                self.cache().slots[slot as int]->0.unpinned(),
            ).settled(slot as int),
            File::Streaming { .. } => self.cache(),
        }
    }

    /// Closes a handle. A handle that is not live is refused with
    /// `InvalidHandle`. The slot of a cached file stays in the cache; it only
    /// loses the hold of this handle.
    pub fn close(&mut self, fh: u64) -> (res: Result<(), Error>)
        requires
            old(self).wf(),
        ensures
            final(self).wf(),
            final(self).config() == old(self).config(),
            final(self).caching() == old(self).caching(),
            old(self).caching() && old(self).cache().accounted() ==> final(self).cache().accounted(),
            match old(self).file(fh) {
                Some(file) => res is Ok && final(self).files() == old(self).files().remove(fh as usize)
                    && (old(self).caching() ==> final(self).cache() == old(self).cache_after_close(
                    file,
                )),
                None => res == Err::<(), Error>(Error::InvalidHandle(fh))
                    && final(self).files() == old(self).files()
                    && (old(self).caching() ==> final(self).cache() == old(self).cache()),
            },
    {
        let key = match Self::fh_to_key(fh) {
            Some(key) => key,
            None => {
                return Err(Error::InvalidHandle(fh));
            },
        };
        let file = match table_get(&self.handles, key) {
            Some(file) => file,
            None => {
                return Err(Error::InvalidHandle(fh));
            },
        };
        proof {
            if file is Cached {
                self.lemma_handle_is_live(fh);
            }
        }
        table_remove(&mut self.handles, key);
        proof {
            assert forall|v: usize| #[trigger]
                holders(old(self).files(), v) == holders(self.files(), v) + if file == (
                File::Cached { slot: v }) {
                    1nat
                } else {
                    0nat
                } by {
                lemma_holders_remove(old(self).files(), key, v);
            }
            lemma_holders_remove(old(self).files(), key, 0);
        }
        match file {
            File::Cached { slot } => {
                match &mut self.disk_cache {
                    Some(cache) => {
                        if cache.is_pinned(slot) {
                            cache.unpin(slot);
                        }
                    },
                    None => {},
                }
            },
            File::Streaming { .. } => {},
        }
        proof {
            assert forall|v: usize| #[trigger] holders(self.files(), v) <= self.held(v) by {
                assert(holders(old(self).files(), v) <= old(self).held(v));
                if old(self).caching() {
                    let before = old(self).cache().pins_of(v as int);
                    let after = self.cache().pins_of(v as int);
                    match file {
                        File::Cached { slot } => {
                            if old(self).cache().pins_of(slot as int) > 0 {
                                assert(before <= after + if v == slot {
                                    1nat
                                } else {
                                    0nat
                                });
                            } else {
                                assert(before == after);
                            }
                        },
                        File::Streaming { .. } => {
                            assert(before == after);
                        },
                    }
                }
            }
        }
        Ok(())
    }

    /// How many bytes a read of `size` bytes at `offset` may ask of a stream
    /// over a file of `file_size` bytes.
    pub open spec fn clamped(file_size: u64, offset: u64, size: usize) -> usize {
        if offset >= file_size {
            0
        } else if size <= file_size - offset {
            size
        } else {
            (file_size - offset) as usize
        }
    }

    /// How a read of `size` bytes at `offset` on the handle `fh` is answered.
    pub open spec fn read_outcome(&self, fh: u64, offset: u64, size: usize) -> Result<ReadStep, Error> {
        match self.file(fh) {
            None => Err(Error::InvalidHandle(fh)),
            Some(File::Streaming { file_size }) => Ok(
                ReadStep::Stream { size: Self::clamped(file_size, offset, size) },
            ),
            Some(File::Cached { slot }) => match self.cache().slots[slot as int]->0.state.read_outcome(
                offset,
                size,
            ) {
                Ok(plan) => Ok(ReadStep::Cached { slot, plan }),
                Err(e) => Err(e),
            },
        }
    }

    /// Decides how a read of `size` bytes at `offset` on a handle is served.
    ///
    /// A handle that is not live is refused with `InvalidHandle`. A streaming
    /// handle reads from its stream, no further than the end of the file. A
    /// cached handle reads as its slot decides: see [`SlotState::read`].
    pub fn read(&self, fh: u64, offset: u64, size: usize) -> (res: Result<ReadStep, Error>)
        requires
            self.wf(),
        ensures
            res == self.read_outcome(fh, offset, size),
    {
        let key = match Self::fh_to_key(fh) {
            Some(key) => key,
            None => {
                return Err(Error::InvalidHandle(fh));
            },
        };
        proof {
            if self.file(fh) is Some && self.file(fh)->0 is Cached {
                self.lemma_handle_is_live(fh);
            }
        }
        match table_get(&self.handles, key) {
            None => Err(Error::InvalidHandle(fh)),
            Some(File::Streaming { file_size }) => {
                let rest: u64 = file_size.saturating_sub(offset);
                let size: usize = if size as u64 <= rest {
                    size
                } else {
                    rest as usize
                };
                Ok(ReadStep::Stream { size })
            },
            Some(File::Cached { slot }) => match &self.disk_cache {
                Some(cache) => {
                    if cache.holds(slot) {
                        match cache.read(slot, offset, size) {
                            Ok(plan) => Ok(ReadStep::Cached { slot, plan }),
                            Err(e) => Err(e),
                        }
                    } else {
                        Err(Error::InvalidHandle(fh))
                    }
                },
                None => Err(Error::InvalidHandle(fh)),
            },
        }
    }

    /// Decides on a write of `len` bytes at `offset` on a handle; `mtime` is
    /// the time of the write. The handle must not be a streaming handle:
    /// those are opened for reading only.
    ///
    /// A handle that is not live is refused with `InvalidHandle`. A cached
    /// handle writes as its slot decides, under the size limit for uploads:
    /// see [`SlotState::write`]. The answer is the slot together with its
    /// plan.
    pub fn write(&mut self, fh: u64, offset: u64, len: usize, mtime: Timestamp) -> (res: Result<
        (usize, WritePlan),
        Error,
    >)
        requires
            old(self).wf(),
            !(old(self).file(fh) is Some && old(self).file(fh)->0 is Streaming),
        ensures
            final(self).wf(),
            final(self).config() == old(self).config(),
            final(self).caching() == old(self).caching(),
            final(self).files() == old(self).files(),
            match old(self).file(fh) {
                Some(File::Cached { slot: v }) => {
                    let before = old(self).cache().slots[v as int]->0.state;
                    let max_size = old(self).config().upload.max_size;
                    let after = before.written_to(offset, len, max_size);
                    let grown = (after.file_size - before.file_size) as u64;
                    &&& res == match before.write_outcome(offset, len, mtime, max_size) {
                        Ok(plan) => Ok::<(usize, WritePlan), Error>((v, plan)),
                        Err(e) => Err(e),
                    }
                    &&& final(self).cache()
                        == old(self).cache().with_state(v as int, after).grown_by(grown)
                    &&& old(self).cache().accounted() && old(self).cache().total + grown <= u64::MAX
                        ==> final(self).cache().accounted()
                },
                _ => res == Err::<(usize, WritePlan), Error>(Error::InvalidHandle(fh))
                    && (old(self).caching() ==> final(self).cache() == old(self).cache()),
            },
    {
        let key = match Self::fh_to_key(fh) {
            Some(key) => key,
            None => {
                return Err(Error::InvalidHandle(fh));
            },
        };
        let slot = match table_get(&self.handles, key) {
            Some(File::Cached { slot }) => slot,
            _ => {
                return Err(Error::InvalidHandle(fh));
            },
        };
        proof {
            self.lemma_handle_is_live(fh);
        }
        let max_size = self.config.upload.max_size;
        match &mut self.disk_cache {
            Some(cache) => {
                if cache.holds(slot) {
                    match cache.write(slot, offset, len, mtime, max_size) {
                        Ok(plan) => Ok((slot, plan)),
                        Err(e) => Err(e),
                    }
                } else {
                    Err(Error::InvalidHandle(fh))
                }
            },
            None => Err(Error::InvalidHandle(fh)),
        }
    }

    /// Whether the item has a slot in the index whose file has the size
    /// `size`.
    pub open spec fn sized(&self, item_id: Seq<char>, size: u64) -> bool {
        match lookup(self.cache().entries, item_id) {
            Some(v) => self.cache().slots[v as int]->0.state.file_size == size,
            None => false,
        }
    }

    /// How the truncation of the slot `v` to `new_size` goes on.
    pub open spec fn truncate_step(state: SlotState, v: usize, new_size: u64) -> TruncateStep {
        match state.truncate_outcome(new_size) {
            TruncatePlan::Resize { len, upload } => TruncateStep::Resize { slot: v, len, upload },
            TruncatePlan::Refetch => TruncateStep::NeedMeta,
        }
    }

    /// Decides on the truncation of the file of an item to `new_size`;
    /// `mtime` is the time of the truncation.
    ///
    /// A size above the limit for cached files is refused with
    /// `FileTooLarge`, and a pool without disk cache refuses with
    /// `WriteWithoutCache`. Otherwise the slot of the item is looked up,
    /// which counts as a use, and truncated as [`SlotState::truncate`]
    /// describes. If the item has no slot, or one that is of no use any
    /// more, the size and content tag of the file are to be fetched and
    /// [`FilePool::truncate_fetched`] goes on.
    pub fn truncate_file(&mut self, item_id: &str, new_size: u64, mtime: Timestamp) -> (res: Result<
        TruncateStep,
        Error,
    >)
        requires
            old(self).wf(),
        ensures
            final(self).wf(),
            final(self).config() == old(self).config(),
            final(self).caching() == old(self).caching(),
            final(self).files() == old(self).files(),
            old(self).config().disk_cache.max_cached_file_size < new_size ==> res == Err::<
                TruncateStep,
                Error,
            >(Error::FileTooLarge),
            new_size <= old(self).config().disk_cache.max_cached_file_size
                && !old(self).caching() ==> res
                == Err::<TruncateStep, Error>(Error::WriteWithoutCache),
            res is Err && old(self).caching() ==> final(self).cache() == old(self).cache(),
            old(self).caching() && old(self).cache().accounted() && !(res matches Ok(
                TruncateStep::Resize { .. },
            )) ==> final(self).cache().accounted(),
            old(self).caching() ==> final(self).cache().total == old(self).cache().total,
            old(self).caching() && old(self).cache().accounted() && old(self).sized(item_id@, new_size)
                ==> final(self).cache().accounted(),
            new_size <= old(self).config().disk_cache.max_cached_file_size && old(self).caching()
                ==> match lookup(old(self).cache().entries, item_id@) {
                Some(v) => {
                    let used = CacheModel {
                        entries: touched(old(self).cache().entries, item_id@),
                        ..old(self).cache()
                    };
                    let before = used.slots[v as int]->0.state;
                    &&& final(self).cache()
                        == used.with_state(v as int, before.after_truncate(new_size, mtime))
                    &&& res == Ok::<TruncateStep, Error>(Self::truncate_step(before, v, new_size))
                },
                None => res == Ok::<TruncateStep, Error>(TruncateStep::NeedMeta) && final(self).cache()
                    == old(self).cache(),
            },
    {
        if new_size > self.config.disk_cache.max_cached_file_size {
            return Err(Error::FileTooLarge);
        }
        match &mut self.disk_cache {
            Some(cache) => {
                match cache.get(item_id) {
                    Some(v) => match cache.truncate(v, new_size, mtime) {
                        TruncatePlan::Resize { len, upload } => Ok(
                            TruncateStep::Resize { slot: v, len, upload },
                        ),
                        TruncatePlan::Refetch => Ok(TruncateStep::NeedMeta),
                    },
                    None => Ok(TruncateStep::NeedMeta),
                }
            },
            None => Err(Error::WriteWithoutCache),
        }
    }

    /// The slot that a truncation asks for: a file of `new_size` bytes that
    /// takes from the download no more than the remote file holds.
    pub open spec fn truncated_slot(
        item_id: String,
        new_size: u64,
        mtime: Timestamp,
        remote_size: u64,
        c_tag: String,
    ) -> SlotState {
        SlotState::fresh(
            item_id,
            new_size,
            c_tag,
            Some((if remote_size < new_size { remote_size } else { new_size }, mtime)),
        )
    }

    /// Goes on with a truncation to `new_size` once the remote side has told
    /// the size `remote_size` and the content tag `c_tag` of the file.
    ///
    /// A pool without disk cache refuses with `WriteWithoutCache`. Otherwise
    /// a slot of the new size is asked for as
    /// [`DiskCache::try_alloc_and_fetch`] describes, with a truncation
    /// pending. If the file gets no slot the truncation fails with
    /// `FileTooLarge`. For a slot that was made just now its download is to
    /// be started; a slot that the item got meanwhile is left as it is.
    pub fn truncate_fetched(
        &mut self,
        item_id: String,
        new_size: u64,
        mtime: Timestamp,
        remote_size: u64,
        c_tag: String,
    ) -> (res: Result<Start, Error>)
        requires
            old(self).wf(),
        ensures
            final(self).wf(),
            final(self).config() == old(self).config(),
            final(self).caching() == old(self).caching(),
            final(self).files() == old(self).files(),
            old(self).caching() && old(self).cache().accounted() ==> final(self).cache().accounted(),
            res matches Ok(Start::Download { slot, .. }) ==> final(self).cache().slot(slot as int)
                == Some(
                SlotEntry {
                    state: Self::truncated_slot(item_id, new_size, mtime, remote_size, c_tag),
                    pins: 0,
                    waits: 0,
                    cached: old(self).config().disk_cache.max_files > 0,
                },
            ),
            res matches Ok(Start::Download { .. })
                && old(self).cache().accounted()
                ==> final(self).cache().total <= old(self).config().disk_cache.max_total_size,
            !old(self).caching() ==> res == Err::<Start, Error>(Error::WriteWithoutCache),
            old(self).caching() && old(self).config().disk_cache.max_cached_file_size < new_size ==> res
                == Err::<Start, Error>(Error::FileTooLarge) && final(self).cache() == old(self).cache(),
            old(self).caching() && new_size <= old(self).config().disk_cache.max_cached_file_size ==> ({
                let state = Self::truncated_slot(item_id, new_size, mtime, remote_size, c_tag);
                let max_total = old(self).config().disk_cache.max_total_size;
                &&& final(self).cache() == old(self).cache().allocated(
                    state,
                    max_total,
                    old(self).config().disk_cache.max_files,
                )
                &&& res == match old(self).cache().alloc_answer(state, max_total) {
                    Alloc::Created(v) => Ok::<Start, Error>(Start::Download { slot: v, file_size: new_size }),
                    Alloc::Existing(_) => Ok(Start::Nothing),
                    Alloc::NoSlot => Err(Error::FileTooLarge),
                }
            }),
    {
        let cap: u64 = if remote_size < new_size {
            remote_size
        } else {
            new_size
        };
        match &mut self.disk_cache {
            Some(cache) => match cache.try_alloc_and_fetch(item_id, new_size, c_tag, Some((cap, mtime))) {
                Alloc::Created(v) => Ok(Start::Download { slot: v, file_size: new_size }),
                Alloc::Existing(_) => Ok(Start::Nothing),
                Alloc::NoSlot => Err(Error::FileTooLarge),
            },
            None => Err(Error::WriteWithoutCache),
        }
    }

    /// The answer to a flush of the slot `v`.
    pub open spec fn flush_answer(state: SlotState, v: usize) -> Result<Flush, Error> {
        match state.flush_outcome() {
            Ok(FlushPlan::Done) => Ok(Flush::Done),
            Ok(plan) => Ok(Flush::Wait { slot: v, plan }),
            Err(e) => Err(e),
        }
    }

    /// Decides what a flush of the file of an item has to wait for.
    ///
    /// Nothing is pending if files are not cached or the item has no slot.
    /// Otherwise the slot is looked up, which counts as a use, and asked as
    /// [`SlotState::flush`] describes. If the caller has to wait, the slot is
    /// held until [`FilePool::flush_resume`] says that the flush is over; if
    /// the slot cannot count another holder, the flush fails with
    /// `PoolFull`.
    pub fn flush_file(&mut self, item_id: &str) -> (res: Result<Flush, Error>)
        requires
            old(self).wf(),
        ensures
            final(self).wf(),
            final(self).config() == old(self).config(),
            final(self).caching() == old(self).caching(),
            final(self).files() == old(self).files(),
            old(self).caching() && old(self).cache().accounted() ==> final(self).cache().accounted(),
            !old(self).caching() ==> res == Ok::<Flush, Error>(Flush::Done),
            old(self).caching() ==> match lookup(old(self).cache().entries, item_id@) {
                None => res == Ok::<Flush, Error>(Flush::Done)
                    && final(self).cache() == old(self).cache(),
                Some(v) => {
                    let used = CacheModel {
                        entries: touched(old(self).cache().entries, item_id@),
                        ..old(self).cache()
                    };
                    let entry = used.slots[v as int]->0;
                    let asked = used.with_state(v as int, entry.state.after_flush());
                    if Self::flush_answer(entry.state, v) matches Ok(Flush::Wait { .. }) {
                        if entry.waits < usize::MAX {
                            res == Self::flush_answer(entry.state, v) && final(self).cache()
                                == asked.with_slot(v as int, asked.slots[v as int]->0.awaited())
                        } else {
                            res == Err::<Flush, Error>(Error::PoolFull) && final(self).cache() == asked
                        }
                    } else {
                        res == Self::flush_answer(entry.state, v) && final(self).cache() == asked
                    }
                },
            },
    {
        proof {
            if self.caching() {
                self.disk_cache->0.lemma_wf();
                match lookup(self.cache().entries, item_id@) {
                    Some(v) => {
                        lemma_lookup_slot(self.cache(), item_id@);
                        lemma_with_state_same(
                            CacheModel {
                                entries: touched(self.cache().entries, item_id@),
                                ..self.cache()
                            },
                            v as int,
                        );
                    },
                    None => {},
                }
            }
        }
        match &mut self.disk_cache {
            Some(cache) => {
                match cache.get(item_id) {
                    Some(v) => match cache.flush(v) {
                        Ok(FlushPlan::Done) => Ok(Flush::Done),
                        Ok(plan) => match cache.wait_begin(v) {
                            Ok(()) => Ok(Flush::Wait { slot: v, plan }),
                            Err(e) => Err(e),
                        },
                        Err(e) => Err(e),
                    },
                    None => Ok(Flush::Done),
                }
            },
            None => Ok(Flush::Done),
        }
    }

    /// Goes on with a flush after the wait that [`FilePool::flush_file`] or
    /// this function asked for; `slot` is the slot that the flush holds.
    ///
    /// The slot is asked again. If the caller has to wait once more, the
    /// slot stays held. If not, the flush is over, with success or with
    /// `DownloadFailed`, and lets go of the slot; a slot that nothing keeps
    /// any more is gone.
    pub fn flush_resume(&mut self, slot: usize) -> (res: Result<Flush, Error>)
        requires
            old(self).wf(),
            old(self).caching(),
            old(self).cache().slot(slot as int) matches Some(e) && e.waits > 0,
        ensures
            final(self).wf(),
            final(self).config() == old(self).config(),
            final(self).caching() == old(self).caching(),
            final(self).files() == old(self).files(),
            old(self).cache().accounted() ==> final(self).cache().accounted(),
            ({
                let entry = old(self).cache().slots[slot as int]->0;
                let asked = old(self).cache().with_state(slot as int, entry.state.after_flush());
                &&& res == Self::flush_answer(entry.state, slot)
                &&& final(self).cache() == if res matches Ok(Flush::Wait { .. }) {
                    asked
                } else {
                    asked.with_slot(slot as int, asked.slots[slot as int]->0.unawaited()).settled(
                        slot as int,
                    )
                }
            }),
    {
        proof {
            lemma_with_state_same(self.cache(), slot as int);
        }
        match &mut self.disk_cache {
            Some(cache) => match cache.flush(slot) {
                Ok(FlushPlan::Done) => {
                    cache.wait_end(slot);
                    Ok(Flush::Done)
                },
                Ok(plan) => Ok(Flush::Wait { slot, plan }),
                Err(e) => {
                    cache.wait_end(slot);
                    Err(e)
                },
            },
            None => Ok(Flush::Done),
        }
    }

    /// Takes in a list of remote changes: see [`DiskCache::sync_items`]. A
    /// pool without disk cache has nothing to do.
    pub fn sync_items(&mut self, changes: &Vec<RemoteChange>)
        requires
            old(self).wf(),
        ensures
            final(self).wf(),
            final(self).config() == old(self).config(),
            final(self).caching() == old(self).caching(),
            final(self).files() == old(self).files(),
            old(self).caching() ==> final(self).cache() == old(self).cache().synced_all(changes@),
            old(self).caching() && old(self).cache().accounted() ==> final(self).cache().accounted(),
            old(self).caching() ==> final(self).cache().slots.len() == old(self).cache().slots.len(),
            old(self).caching() ==> forall|v: int|
                0 <= v < old(self).cache().slots.len() ==> #[trigger] final(self).cache().slots[v]
                    == after_sync(old(self).cache().slots[v], changes@),
    {
        match &mut self.disk_cache {
            Some(cache) => {
                cache.sync_items(changes);
            },
            None => {},
        }
    }

    /// Hands a chunk of the download to the writer of the slot `slot`: see
    /// [`DiskCache::accept_chunk`].
    pub fn accept_chunk(&mut self, slot: usize, chunk: Bytes) -> (step: WriterStep)
        requires
            old(self).wf(),
        ensures
            final(self).wf(),
            final(self).config() == old(self).config(),
            final(self).caching() == old(self).caching(),
            final(self).files() == old(self).files(),
            old(self).caching() && old(self).cache().accounted() ==> final(self).cache().accounted(),
            !old(self).caching() ==> step is Abort,
            old(self).caching() ==> final(self).cache() == old(self).cache().after_chunk(
                slot as int,
                chunk_bytes(chunk).len(),
            ) && match old(self).cache().slot(slot as int) {
                Some(e) => step.matches_plan(
                    e.state,
                    e.state.after_chunk(
                        chunk_bytes(chunk).len(),
                        old(self).cache().sole_owner(slot as int),
                    ),
                    chunk_bytes(chunk),
                    old(self).cache().sole_owner(slot as int),
                ),
                None => step is Abort,
            },
    {
        match &mut self.disk_cache {
            Some(cache) => cache.accept_chunk(slot, chunk),
            None => WriterStep::Abort,
        }
    }

    /// Tells the slot `slot` that no more chunks will arrive: see
    /// [`DiskCache::finish_download`].
    pub fn finish_download(&mut self, slot: usize) -> (end: DownloadEnd)
        requires
            old(self).wf(),
        ensures
            final(self).wf(),
            final(self).config() == old(self).config(),
            final(self).caching() == old(self).caching(),
            final(self).files() == old(self).files(),
            old(self).caching() && old(self).cache().accounted() ==> final(self).cache().accounted(),
            !old(self).caching() ==> end == DownloadEnd::Aborted,
            old(self).caching() ==> match old(self).cache().slot(slot as int) {
                Some(e) => final(self).cache() == old(self).cache().with_state(
                    slot as int,
                    e.state.after_download_end(),
                ).settled(slot as int) && end == e.state.download_end(),
                None => final(self).cache() == old(self).cache() && end == DownloadEnd::Aborted,
            },
    {
        match &mut self.disk_cache {
            Some(cache) => cache.finish_download(slot),
            None => DownloadEnd::Aborted,
        }
    }

    /// Asks whether the upload of the slot `slot` tagged `epoch` is to go
    /// ahead, and with how many bytes: see [`DiskCache::begin_upload`].
    pub fn begin_upload(&self, slot: usize, epoch: u64) -> (len: Option<u64>)
        requires
            self.wf(),
        ensures
            len == if self.caching() {
                match self.cache().slot(slot as int) {
                    Some(e) => if e.state.upload_is_current(epoch) {
                        Some(e.state.file_size)
                    } else {
                        None
                    },
                    None => None,
                }
            } else {
                None
            },
    {
        match &self.disk_cache {
            Some(cache) => cache.begin_upload(slot, epoch),
            None => None,
        }
    }

    /// Tells the slot `slot` that its upload tagged `epoch` succeeded, and
    /// returns the attributes to announce: see [`DiskCache::finish_upload`].
    pub fn finish_upload(&mut self, slot: usize, epoch: u64, size: u64, mtime: Timestamp, c_tag: String) -> (event:
        Option<UpdatedFileAttr>)
        requires
            old(self).wf(),
        ensures
            final(self).wf(),
            final(self).config() == old(self).config(),
            final(self).caching() == old(self).caching(),
            final(self).files() == old(self).files(),
            old(self).caching() && old(self).cache().accounted() ==> final(self).cache().accounted(),
            !old(self).caching() ==> event is None,
            old(self).caching() ==> match old(self).cache().slot(slot as int) {
                Some(e) => final(self).cache() == old(self).cache().with_state(
                    slot as int,
                    e.state.after_upload(epoch, c_tag),
                ).settled(slot as int) && event == e.state.upload_event(epoch, size, mtime, c_tag),
                None => final(self).cache() == old(self).cache() && event is None,
            },
    {
        match &mut self.disk_cache {
            Some(cache) => cache.finish_upload(slot, epoch, size, mtime, c_tag),
            None => None,
        }
    }
}

} // verus!
