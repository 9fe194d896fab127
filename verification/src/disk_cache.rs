//! The disk cache: cache slots under a byte budget, found by item id.
//!
//! The cache keeps an index from item ids to slots in the order of their last
//! use, and counts the bytes of all slots that exist. A slot exists as long
//! as it is in the index, an open file holds it, or it is busy downloading or
//! uploading; after that it is gone and its bytes are given back.

use vstd::prelude::*;
use bytes::Bytes;
use lru_cache::LruCache;
use crate::chunk::chunk_bytes;
use crate::error::{Error, Timestamp};
use crate::file::{DiskCacheConfig, UpdatedFileAttr};
use crate::lru::{
    has_key,
    key_index,
    lookup,
    lru_capacity,
    lru_entries,
    lru_insert,
    lru_len,
    lru_new,
    lru_remove,
    lru_remove_lru,
    lru_touch,
    touched,
    without,
    Entry,
};
use crate::slot::{DownloadEnd, FlushPlan, ReadPlan, SlotState, Status, TruncatePlan, WritePlan, WriterStep};

verus! {

/// A slot of the cache with what keeps it.
#[derive(Debug)]
pub struct SlotEntry {
    pub state: SlotState,
    /// How many open files hold the slot.
    pub pins: usize,
    /// How many flushes wait for the slot.
    pub waits: usize,
    /// Whether the index holds the slot.
    pub cached: bool,
}

impl SlotEntry {
    /// A download or an upload of the slot is under way.
    pub open spec fn busy(self) -> bool {
        self.state.status is Downloading || self.state.status is Dirty
    }

    /// The slot held by one more open file.
    pub open spec fn pinned(self) -> SlotEntry {
        SlotEntry { pins: (self.pins + 1) as usize, ..self }
    }

    /// The slot held by one open file fewer.
    pub open spec fn unpinned(self) -> SlotEntry {
        SlotEntry { pins: (self.pins - 1) as usize, ..self }
    }

    /// The slot with one more flush waiting for it.
    pub open spec fn awaited(self) -> SlotEntry {
        SlotEntry { waits: (self.waits + 1) as usize, ..self }
    }

    /// The slot with one flush fewer waiting for it.
    pub open spec fn unawaited(self) -> SlotEntry {
        SlotEntry { waits: (self.waits - 1) as usize, ..self }
    }

    /// Whether anything keeps the slot: the index, an open file, a flush
    /// that waits, or a transfer under way.
    pub open spec fn kept(self) -> bool {
        self.cached || self.pins > 0 || self.waits > 0 || self.busy()
    }
}

/// A remote change as the sync feed reports it.
#[derive(Clone, Debug, PartialEq, Eq)]
pub struct RemoteChange {
    pub id: String,
    /// The item is a folder.
    pub folder: bool,
    /// The item was deleted.
    pub deleted: bool,
    /// The content tag of the item after the change.
    pub c_tag: Option<String>,
}

/// What became of a request for a slot.
#[derive(Clone, Copy, Debug, PartialEq, Eq)]
pub enum Alloc {
    /// The file cannot be cached.
    NoSlot,
    /// The file was cached already, in this slot.
    Existing(usize),
    /// This slot was made for the file; its download is to be started.
    Created(usize),
}

/// Whether some entry of an index points to the slot `v`.
pub open spec fn has_slot(entries: Seq<Entry>, v: int) -> bool {
    exists|i: int| 0 <= i < entries.len() && (#[trigger] entries[i]).1 == v
}

/// The bytes that a place of the slot table accounts for.
pub open spec fn entry_size(entry: Option<SlotEntry>) -> nat {
    match entry {
        Some(e) => e.state.file_size as nat,
        None => 0,
    }
}

/// The bytes of all slots of a table together.
pub open spec fn live_size(slots: Seq<Option<SlotEntry>>) -> nat
    decreases slots.len(),
{
    if slots.len() == 0 {
        0
    } else {
        live_size(slots.drop_last()) + entry_size(slots.last())
    }
}

/// The byte count after `size` bytes are given back. The count wraps around
/// rather than going below zero.
pub open spec fn released(total: u64, size: u64) -> u64 {
    if size <= total {
        (total - size) as u64
    } else {
        (total - size + 0x1_0000_0000_0000_0000) as u64
    }
}

/// The byte count after `size` bytes are added. The count wraps around.
pub open spec fn charged(total: u64, size: u64) -> u64 {
    if total + size <= u64::MAX {
        (total + size) as u64
    } else {
        (total + size - 0x1_0000_0000_0000_0000) as u64
    }
}

/// The limits that a disk cache is made with.
pub struct Limits {
    /// The largest file, in bytes, that is cached.
    pub max_cached_file_size: u64,
    /// The largest number of entries of the index.
    pub max_files: usize,
    /// The byte budget.
    pub max_total_size: u64,
}

/// What a disk cache holds: the index, the least recently used entry first;
/// the table of slots by number; the count of cached bytes; and the limits,
/// which never change.
pub struct CacheModel {
    pub entries: Seq<Entry>,
    pub slots: Seq<Option<SlotEntry>>,
    pub total: u64,
    pub limits: Limits,
}

impl CacheModel {
    /// A cache without slots.
    pub open spec fn empty(limits: Limits) -> CacheModel {
        CacheModel { entries: Seq::empty(), slots: Seq::empty(), total: 0, limits }
    }

    /// The slot with this number, if it exists.
    pub open spec fn slot(self, v: int) -> Option<SlotEntry> {
        if 0 <= v < self.slots.len() {
            self.slots[v]
        } else {
            None
        }
    }

    /// How many open files hold the slot `v`; none if the slot is gone.
    pub open spec fn pins_of(self, v: int) -> nat {
        match self.slot(v) {
            Some(e) => e.pins as nat,
            None => 0,
        }
    }

    /// Whether every slot that open files hold in `self` is still there in
    /// `after`, held by at least as many.
    pub open spec fn keeps_pins(self, after: CacheModel) -> bool {
        forall|v: int| #[trigger] self.pins_of(v) <= after.pins_of(v)
    }

    /// The cache with the slot `v` set to `entry`.
    pub open spec fn with_slot(self, v: int, entry: SlotEntry) -> CacheModel {
        CacheModel { slots: self.slots.update(v, Some(entry)), ..self }
    }

    /// The cache with the state of the slot `v` set to `state`.
    pub open spec fn with_state(self, v: int, state: SlotState) -> CacheModel {
        match self.slot(v) {
            Some(e) => self.with_slot(v, SlotEntry { state, ..e }),
            None => self,
        }
    }

    /// The cache with `bytes` more bytes counted.
    pub open spec fn grown_by(self, bytes: u64) -> CacheModel {
        CacheModel { total: charged(self.total, bytes), ..self }
    }

    /// The cache without the slot `v`, its bytes given back.
    pub open spec fn abandoned(self, v: int) -> CacheModel {
        match self.slot(v) {
            Some(e) => CacheModel {
                slots: self.slots.update(v, None),
                total: released(self.total, e.state.file_size),
                ..self
            },
            None => self,
        }
    }

    /// Whether only the writer still holds the slot `v`.
    pub open spec fn sole_owner(self, v: int) -> bool {
        match self.slot(v) {
            Some(e) => !e.cached && e.pins == 0 && e.waits == 0,
            None => false,
        }
    }

    /// The cache after the writer of the slot `v` handled a chunk of `len`
    /// bytes. A writer that stops on a slot that only it still holds takes
    /// the slot with it.
    pub open spec fn after_chunk(self, v: int, len: nat) -> CacheModel {
        match self.slot(v) {
            Some(e) => if e.state.status is Downloading && !e.state.writer_goes_on(self.sole_owner(v)) {
                self.abandoned(v)
            } else {
                self.with_state(v, e.state.after_chunk(len, self.sole_owner(v))).settled(v)
            },
            None => self,
        }
    }

    /// The cache after a look at the slot `v`: if nothing keeps the slot any
    /// more it is gone, and its bytes are given back.
    pub open spec fn settled(self, v: int) -> CacheModel {
        match self.slot(v) {
            Some(e) => if e.kept() {
                self
            } else {
                CacheModel {
                    slots: self.slots.update(v, None),
                    total: released(self.total, e.state.file_size),
                    ..self
                }
            },
            None => self,
        }
    }

    /// The cache after the index has let go of the slot `v`.
    pub open spec fn unlinked(self, v: int) -> CacheModel {
        match self.slot(v) {
            Some(e) => self.with_slot(v, SlotEntry { cached: false, ..e }).settled(v),
            None => self,
        }
    }

    /// The cache after the slot `v` was invalidated.
    pub open spec fn invalidated(self, v: int) -> CacheModel {
        match self.slot(v) {
            Some(e) => self.with_slot(
                v,
                SlotEntry { state: e.state.with_status(Status::Invalidated), ..e },
            ),
            None => self,
        }
    }

    /// The cache after its least recently used entry was evicted.
    pub open spec fn evict_front(self) -> CacheModel {
        CacheModel { entries: self.entries.drop_first(), ..self }.unlinked(self.entries[0].1 as int)
    }

    /// The cache after room was made for `need` more bytes under the budget
    /// `max`: least recently used entries are evicted, one after the other,
    /// until the bytes fit or the index is empty.
    pub open spec fn make_room(self, need: u64, max: u64) -> CacheModel
        decreases self.entries.len(),
    {
        if self.total + need <= max || self.entries.len() == 0 {
            self
        } else {
            self.evict_front().make_room(need, max)
        }
    }

    /// The cache after its `n` least recently used entries were evicted, the
    /// least recently used first.
    pub open spec fn evicted(self, n: nat) -> CacheModel
        decreases n,
    {
        if n == 0 {
            self
        } else {
            self.evict_front().evicted((n - 1) as nat)
        }
    }

    /// The cache after a new slot was put under `key` into an index that
    /// holds at most `max_files` entries. The slot gets the next free number.
    /// If the index is full its least recently used entry is evicted first;
    /// an index that holds no entries at all does not take the slot.
    pub open spec fn placed(self, key: Seq<char>, state: SlotState, pins: usize, max_files: usize) -> CacheModel {
        let base = if 0 < max_files <= self.entries.len() {
            self.evict_front()
        } else {
            self
        };
        let v = base.slots.len() as usize;
        CacheModel {
            entries: if max_files > 0 {
                base.entries.push((key, v))
            } else {
                base.entries
            },
            slots: base.slots.push(Some(SlotEntry { state, pins, waits: 0, cached: max_files > 0 })),
            total: charged(base.total, state.file_size),
            limits: base.limits,
        }
    }

    /// The cache after the entry under `key` was taken out of the index and
    /// its slot invalidated.
    pub open spec fn dropped(self, key: Seq<char>) -> CacheModel {
        match lookup(self.entries, key) {
            Some(v) => CacheModel { entries: without(self.entries, key), ..self }.invalidated(
                v as int,
            ).unlinked(v as int),
            None => self,
        }
    }

    /// The cache after one remote change was taken in. Folders do not
    /// matter, nor do items that are not in the index. The slot of the item
    /// is looked up, which counts as a use. If the item was deleted or has
    /// another content tag than the slot, or none, the slot leaves the index
    /// and is invalidated.
    pub open spec fn synced(self, change: RemoteChange) -> CacheModel {
        if change.folder {
            self
        } else {
            match lookup(self.entries, change.id@) {
                Some(v) => {
                    let used = CacheModel { entries: touched(self.entries, change.id@), ..self };
                    if change.deleted || self.tag_differs(v as int, change.c_tag) {
                        used.dropped(change.id@)
                    } else {
                        used
                    }
                },
                None => self,
            }
        }
    }

    /// Whether the slot `v` has another content tag than `c_tag`; no tag is
    /// another tag.
    pub open spec fn tag_differs(self, v: int, c_tag: Option<String>) -> bool {
        match (self.slot(v), c_tag) {
            (Some(e), Some(tag)) => e.state.c_tag@ != tag@,
            _ => true,
        }
    }

    /// The cache after a list of remote changes was taken in, one after the
    /// other.
    pub open spec fn synced_all(self, changes: Seq<RemoteChange>) -> CacheModel
        decreases changes.len(),
    {
        if changes.len() == 0 {
            self
        } else {
            self.synced_all(changes.drop_last()).synced(changes.last())
        }
    }

    /// Whether `need` more bytes fit under the budget `max`.
    pub open spec fn fits(self, need: u64, max: u64) -> bool {
        self.total + need <= max
    }

    /// The cache after a slot was asked for, for a file that is not too
    /// large to be cached. If the item is in the index, that counts as a
    /// use. If not, room is made; if the file then fits, it gets a new slot.
    pub open spec fn allocated(self, state: SlotState, max_total: u64, max_files: usize) -> CacheModel {
        let key = state.item_id@;
        if has_key(self.entries, key) {
            CacheModel { entries: touched(self.entries, key), ..self }
        } else {
            let room = self.make_room(state.file_size, max_total);
            if room.fits(state.file_size, max_total) {
                room.placed(key, state, 0, max_files)
            } else {
                room
            }
        }
    }

    /// The answer to the request for a slot.
    pub open spec fn alloc_answer(self, state: SlotState, max_total: u64) -> Alloc {
        let key = state.item_id@;
        match lookup(self.entries, key) {
            Some(v) => Alloc::Existing(v),
            None => if self.make_room(state.file_size, max_total).fits(state.file_size, max_total) {
                Alloc::Created(self.slots.len() as usize)
            } else {
                Alloc::NoSlot
            },
        }
    }

    /// The count of cached bytes is the sum of the sizes of the slots.
    pub open spec fn accounted(self) -> bool {
        self.total == live_size(self.slots)
    }

    /// Whether an entry of the index points to a slot that knows it.
    pub open spec fn entry_ok(self, entry: Entry) -> bool {
        &&& entry.1 < self.slots.len()
        &&& self.slots[entry.1 as int] matches Some(e) && e.cached && e.state.item_id@ == entry.0
    }

    /// What holds of the index: every entry points to a slot of its item
    /// that knows to be in the index, and no item and no slot occurs twice.
    pub open spec fn linked(self) -> bool {
        &&& forall|i: int| 0 <= i < self.entries.len() ==> self.entry_ok(#[trigger] self.entries[i])
        &&& forall|i: int, j: int|
            0 <= i < j < self.entries.len() ==> (#[trigger] self.entries[i]).0 != (
            #[trigger] self.entries[j]).0 && self.entries[i].1 != self.entries[j].1
    }

    /// What holds of the slots: each is well formed and kept by something.
    pub open spec fn slots_ok(self) -> bool {
        forall|v: int|
            0 <= v < self.slots.len() ==> match #[trigger] self.slots[v] {
                Some(e) => e.state.wf() && e.kept(),
                None => true,
            }
    }

    /// What holds of the slots and the index together: a slot that says to
    /// be in the index is there.
    pub open spec fn flags_ok(self) -> bool {
        forall|v: int|
            0 <= v < self.slots.len() ==> match #[trigger] self.slots[v] {
                Some(e) => e.cached ==> has_slot(self.entries, v),
                None => true,
            }
    }

    /// What holds of every cache.
    pub open spec fn wf(self) -> bool {
        self.linked() && self.slots_ok() && self.flags_ok()
    }
}

/// Setting a slot to the state that it has changes nothing.
pub proof fn lemma_with_state_same(m: CacheModel, v: int)
    requires
        m.slot(v) is Some,
    ensures
        m.with_state(v, m.slots[v]->0.state) == m,
        m.with_slot(v, m.slots[v]->0) == m,
{
    assert(m.slots.update(v, Some(m.slots[v]->0)) =~= m.slots);
}

/// An index whose keys are all different holds a key at one place only.
pub proof fn lemma_key_index(entries: Seq<Entry>, i: int)
    requires
        0 <= i < entries.len(),
        forall|a: int, b: int|
            0 <= a < b < entries.len() ==> (#[trigger] entries[a]).0 != (#[trigger] entries[b]).0,
    ensures
        has_key(entries, entries[i].0),
        key_index(entries, entries[i].0) == i,
        lookup(entries, entries[i].0) == Some(entries[i].1),
{
    let k = key_index(entries, entries[i].0);
    assert(0 <= k < entries.len() && entries[k].0 == entries[i].0);
    if k < i {
        assert(entries[k].0 != entries[i].0);
    } else if i < k {
        assert(entries[i].0 != entries[k].0);
    }
}

/// The index holds at most one slot for an item: a slot says to be in the
/// index exactly if an entry of the index points to it; the entry is then
/// the one under the id of its item; and two slots of one item are never
/// both in the index.
pub proof fn law_one_slot_per_item(m: CacheModel, v: int, w: int)
    requires
        m.wf(),
        m.slot(v) is Some,
        m.slot(w) is Some,
    ensures
        m.slots[v]->0.cached == has_slot(m.entries, v),
        m.slots[v]->0.cached ==> lookup(m.entries, m.slots[v]->0.state.item_id@) == Some(v as usize),
        m.slots[v]->0.cached && m.slots[w]->0.cached && m.slots[v]->0.state.item_id@
            == m.slots[w]->0.state.item_id@ ==> v == w,
{
    if has_slot(m.entries, v) {
        let i = choose|i: int| 0 <= i < m.entries.len() && (#[trigger] m.entries[i]).1 == v;
        assert(m.entry_ok(m.entries[i]));
        lemma_key_index(m.entries, i);
    }
    if has_slot(m.entries, w) {
        let j = choose|j: int| 0 <= j < m.entries.len() && (#[trigger] m.entries[j]).1 == w;
        assert(m.entry_ok(m.entries[j]));
        lemma_key_index(m.entries, j);
    }
}

/// An item that is in the index of a cache in order has a slot.
pub proof fn lemma_lookup_slot(m: CacheModel, key: Seq<char>)
    requires
        m.linked(),
    ensures
        lookup(m.entries, key) matches Some(v) ==> m.slot(v as int) matches Some(e) && e.cached
            && e.state.item_id@ == key,
{
    if has_key(m.entries, key) {
        assert(m.entry_ok(m.entries[key_index(m.entries, key)]));
    }
}

/// The sum of the slot sizes after one place of the table changed.
pub proof fn lemma_live_size_update(slots: Seq<Option<SlotEntry>>, v: int, entry: Option<SlotEntry>)
    requires
        0 <= v < slots.len(),
    ensures
        live_size(slots.update(v, entry))
            == live_size(slots) - entry_size(slots[v]) + entry_size(entry),
    decreases slots.len(),
{
    let after = slots.update(v, entry);
    if v == slots.len() - 1 {
        assert(after.drop_last() =~= slots.drop_last());
    } else {
        assert(after.drop_last() =~= slots.drop_last().update(v, entry));
        lemma_live_size_update(slots.drop_last(), v, entry);
    }
}

/// The sum of the slot sizes after a slot was added.
pub proof fn lemma_live_size_push(slots: Seq<Option<SlotEntry>>, entry: Option<SlotEntry>)
    ensures
        live_size(slots.push(entry)) == live_size(slots) + entry_size(entry),
{
    assert(slots.push(entry).drop_last() =~= slots);
}

/// No slot is larger than the sum of all.
pub proof fn lemma_live_size_bound(slots: Seq<Option<SlotEntry>>, v: int)
    requires
        0 <= v < slots.len(),
    ensures
        entry_size(slots[v]) <= live_size(slots),
    decreases slots.len(),
{
    if v < slots.len() - 1 {
        lemma_live_size_bound(slots.drop_last(), v);
    }
}


/// A change to a slot that keeps it out of the index, or in it, leaves the
/// slots and the index in agreement.
pub proof fn lemma_slot_change_flags(m: CacheModel, v: int, entry: Option<SlotEntry>)
    requires
        m.flags_ok(),
        0 <= v < m.slots.len(),
        match entry {
            Some(after) => after.cached ==> (match m.slots[v] {
                Some(before) => before.cached,
                None => false,
            }),
            None => true,
        },
    ensures
        (CacheModel { slots: m.slots.update(v, entry), ..m }).flags_ok(),
{
    let after = CacheModel { slots: m.slots.update(v, entry), ..m };
    assert forall|w: int| 0 <= w < after.slots.len() implies match #[trigger] after.slots[w] {
        Some(e) => e.cached ==> has_slot(after.entries, w),
        None => true,
    } by {
        if w != v {
            assert(after.slots[w] == m.slots[w]);
        }
    }
}

/// When an entry leaves the index and its slot is told so, the slots and the
/// index stay in agreement.
pub proof fn lemma_unlink_flags(m: CacheModel, k: int, entry: Option<SlotEntry>)
    requires
        m.linked(),
        m.flags_ok(),
        0 <= k < m.entries.len(),
        match entry {
            Some(after) => !after.cached,
            None => true,
        },
    ensures
        (CacheModel {
            entries: m.entries.remove(k),
            slots: m.slots.update(m.entries[k].1 as int, entry),
            ..m
        }).flags_ok(),
{
    let v = m.entries[k].1 as int;
    let rest = m.entries.remove(k);
    let after = CacheModel { entries: rest, slots: m.slots.update(v, entry), ..m };
    assert(m.entry_ok(m.entries[k]));
    assert forall|w: int| 0 <= w < after.slots.len() implies match #[trigger] after.slots[w] {
        Some(e) => e.cached ==> has_slot(rest, w),
        None => true,
    } by {
        if w != v {
            assert(after.slots[w] == m.slots[w]);
            if has_slot(m.entries, w) {
                let i = choose|i: int| 0 <= i < m.entries.len() && (#[trigger] m.entries[i]).1 == w;
                assert(i != k);
                let j = if i < k {
                    i
                } else {
                    i - 1
                };
                assert(rest[j] == m.entries[i]);
                assert(0 <= j < rest.len() && rest[j].1 == w);
            }
        }
    }
}

/// An index stays in order when one entry leaves it.
pub proof fn lemma_remove_linked(m: CacheModel, k: int)
    requires
        m.linked(),
        0 <= k < m.entries.len(),
    ensures
        (CacheModel { entries: m.entries.remove(k), ..m }).linked(),
        !has_key(m.entries.remove(k), m.entries[k].0),
        forall|i: int|
            0 <= i < m.entries.remove(k).len() ==> (#[trigger] m.entries.remove(k)[i]).1
                != m.entries[k].1,
{
    let rest = m.entries.remove(k);
    let after = CacheModel { entries: rest, ..m };
    assert forall|i: int| 0 <= i < rest.len() implies after.entry_ok(#[trigger] rest[i]) && rest[i].1
        != m.entries[k].1 && rest[i].0 != m.entries[k].0 by {
        if i < k {
            assert(rest[i] == m.entries[i]);
        } else {
            assert(rest[i] == m.entries[i + 1]);
        }
    }
    assert forall|i: int, j: int| 0 <= i < j < rest.len() implies (#[trigger] rest[i]).0 != (
    #[trigger] rest[j]).0 && rest[i].1 != rest[j].1 by {
        let a = if i < k { i } else { i + 1 };
        let b = if j < k { j } else { j + 1 };
        assert(rest[i] == m.entries[a]);
        assert(rest[j] == m.entries[b]);
    }
}

/// The use of an entry leaves the slots and the index in agreement.
pub proof fn lemma_touched_flags(m: CacheModel, k: int)
    requires
        m.flags_ok(),
        0 <= k < m.entries.len(),
    ensures
        (CacheModel { entries: m.entries.remove(k).push(m.entries[k]), ..m }).flags_ok(),
{
    let used = m.entries.remove(k).push(m.entries[k]);
    let after = CacheModel { entries: used, ..m };
    assert forall|w: int| 0 <= w < after.slots.len() implies match #[trigger] after.slots[w] {
        Some(e) => e.cached ==> has_slot(used, w),
        None => true,
    } by {
        if has_slot(m.entries, w) {
            let i = choose|i: int| 0 <= i < m.entries.len() && (#[trigger] m.entries[i]).1 == w;
            let j = if i < k {
                i
            } else if i == k {
                used.len() - 1
            } else {
                i - 1
            };
            assert(used[j] == m.entries[i]);
            assert(0 <= j < used.len() && used[j].1 == w);
        }
    }
}

/// An index stays in order when one of its entries is used, and the entry
/// is then found where it was found before.
pub proof fn lemma_touched_linked(m: CacheModel, key: Seq<char>)
    requires
        m.linked(),
    ensures
        (CacheModel { entries: touched(m.entries, key), ..m }).linked(),
        lookup(touched(m.entries, key), key) == lookup(m.entries, key),
        touched(m.entries, key).len() == m.entries.len(),
        m.flags_ok() ==> (CacheModel { entries: touched(m.entries, key), ..m }).flags_ok(),
{
    if has_key(m.entries, key) {
        let k = key_index(m.entries, key);
        lemma_remove_linked(m, k);
        let rest = m.entries.remove(k);
        let used = rest.push(m.entries[k]);
        let after = CacheModel { entries: used, ..m };
        if m.flags_ok() {
            lemma_touched_flags(m, k);
        }
        assert forall|i: int| 0 <= i < used.len() implies after.entry_ok(#[trigger] used[i]) by {
            if i < rest.len() {
                assert(used[i] == rest[i]);
                assert((CacheModel { entries: rest, ..m }).entry_ok(rest[i]));
            } else {
                assert(used[i] == m.entries[k]);
            }
        }
        assert forall|i: int, j: int| 0 <= i < j < used.len() implies (#[trigger] used[i]).0 != (
        #[trigger] used[j]).0 && used[i].1 != used[j].1 by {
            assert(used[i] == rest[i]);
            if j < rest.len() {
                assert(used[j] == rest[j]);
            } else {
                assert(used[j] == m.entries[k]);
                assert(rest[i].0 != m.entries[k].0) by {
                    if rest[i].0 == m.entries[k].0 {
                        assert(has_key(rest, m.entries[k].0));
                    }
                }
            }
        }
        assert(used[used.len() - 1].0 == key);
        lemma_key_index(used, used.len() - 1);
    }
}

/// A change to a slot that no entry points to leaves the index in order, as
/// does a change that keeps the slot in the index under its item.
pub proof fn lemma_slot_change_linked(m: CacheModel, v: int, entry: Option<SlotEntry>)
    requires
        m.linked(),
        0 <= v < m.slots.len(),
        (forall|i: int| 0 <= i < m.entries.len() ==> (#[trigger] m.entries[i]).1 != v) || (
        m.slots[v] matches Some(before) && entry matches Some(after) && after.cached == before.cached
            && after.state.item_id == before.state.item_id),
    ensures
        (CacheModel { slots: m.slots.update(v, entry), ..m }).linked(),
{
    let after = CacheModel { slots: m.slots.update(v, entry), ..m };
    assert forall|i: int| 0 <= i < after.entries.len() implies after.entry_ok(
        #[trigger] after.entries[i],
    ) by {
        assert(m.entry_ok(m.entries[i]));
    }
}

/// Making room keeps a cache in order, and keeps its byte count in step
/// with its slots.
pub proof fn lemma_evict_front_wf(m: CacheModel)
    requires
        m.wf(),
        m.entries.len() > 0,
    ensures
        m.evict_front().wf(),
        m.evict_front().entries == m.entries.drop_first(),
        m.evict_front().slots.len() == m.slots.len(),
        m.accounted() ==> m.evict_front().accounted(),
{
    let v = m.entries[0].1 as int;
    assert(m.entry_ok(m.entries[0]));
    assert(m.entries.drop_first() =~= m.entries.remove(0));
    lemma_remove_linked(m, 0);
    let cut = CacheModel { entries: m.entries.drop_first(), ..m };
    let e = m.slots[v]->0;
    let loose = cut.with_slot(v, SlotEntry { cached: false, ..e });
    lemma_slot_change_linked(cut, v, Some(SlotEntry { cached: false, ..e }));
    lemma_unlink_flags(m, 0, Some(SlotEntry { cached: false, ..e }));
    lemma_live_size_update(m.slots, v, Some(SlotEntry { cached: false, ..e }));
    lemma_settled_wf(loose, v);
}

/// A look at a slot keeps a cache in order, if all slots but this one are
/// kept and no entry points to a slot that nothing keeps.
pub proof fn lemma_settled_wf(m: CacheModel, v: int)
    requires
        m.linked(),
        m.flags_ok(),
        0 <= v < m.slots.len(),
        forall|w: int|
            0 <= w < m.slots.len() ==> match #[trigger] m.slots[w] {
                Some(e) => e.state.wf() && (w == v || e.kept()),
                None => true,
            },
    ensures
        m.settled(v).wf(),
        m.settled(v).entries == m.entries,
        m.settled(v).slots.len() == m.slots.len(),
        m.accounted() ==> m.settled(v).accounted(),
{
    match m.slots[v] {
        Some(e) => {
            if !e.kept() {
                assert forall|i: int| 0 <= i < m.entries.len() implies (#[trigger] m.entries[i]).1
                    != v by {
                    assert(m.entry_ok(m.entries[i]));
                }
                lemma_slot_change_linked(m, v, None);
                lemma_slot_change_flags(m, v, None);
                lemma_live_size_update(m.slots, v, None);
                lemma_live_size_bound(m.slots, v);
            }
        },
        None => {},
    }
}

/// Room is made in the order of use and no further than needed: making room
/// evicts the `n` least recently used entries, for the least `n` after which
/// the bytes fit or the index is empty. What stays in the index keeps its
/// order.
pub proof fn law_eviction_in_access_order(m: CacheModel, need: u64, max: u64) -> (n: nat)
    requires
        m.wf(),
    ensures
        n <= m.entries.len(),
        m.make_room(need, max) == m.evicted(n),
        m.make_room(need, max).entries == m.entries.skip(n as int),
        m.make_room(need, max).fits(need, max) || n == m.entries.len(),
        forall|k: nat| k < n ==> !(#[trigger] m.evicted(k)).fits(need, max),
        m.make_room(need, max).wf(),
        m.accounted() ==> m.make_room(need, max).accounted(),
    decreases m.entries.len(),
{
    if m.fits(need, max) || m.entries.len() == 0 {
        assert(m.entries.skip(0) =~= m.entries);
        0
    } else {
        lemma_evict_front_wf(m);
        let rest = law_eviction_in_access_order(m.evict_front(), need, max);
        let n = rest + 1;
        assert(m.entries.drop_first().skip(rest as int) =~= m.entries.skip(n as int));
        assert forall|k: nat| k < n implies !(#[trigger] m.evicted(k)).fits(need, max) by {
            if k > 0 {
                assert(m.evicted(k) == m.evict_front().evicted((k - 1) as nat));
            }
        }
        n
    }
}

/// Evicting an entry takes bytes away at most.
pub proof fn lemma_evict_front_total(m: CacheModel)
    requires
        m.wf(),
        m.accounted(),
        m.entries.len() > 0,
    ensures
        m.evict_front().total <= m.total,
{
    let v = m.entries[0].1 as int;
    assert(m.entry_ok(m.entries[0]));
    lemma_live_size_bound(m.slots, v);
    let e = m.slots[v]->0;
    lemma_live_size_update(m.slots, v, Some(SlotEntry { cached: false, ..e }));
}

/// Taking an item out of the index and invalidating its slot keeps a cache
/// in order and its byte count in step with its slots.
pub proof fn lemma_dropped_wf(m: CacheModel, key: Seq<char>)
    requires
        m.wf(),
    ensures
        m.dropped(key).wf(),
        m.dropped(key).entries == without(m.entries, key),
        m.dropped(key).entries.len() <= m.entries.len(),
        m.dropped(key).slots.len() == m.slots.len(),
        !has_key(m.dropped(key).entries, key),
        m.accounted() ==> m.dropped(key).accounted(),
{
    if has_key(m.entries, key) {
        let k = key_index(m.entries, key);
        let v = m.entries[k].1 as int;
        assert(m.entry_ok(m.entries[k]));
        lemma_remove_linked(m, k);
        let cut = CacheModel { entries: m.entries.remove(k), ..m };
        let e = m.slots[v]->0;
        let dead = SlotEntry { state: e.state.with_status(Status::Invalidated), ..e };
        lemma_slot_change_linked(cut, v, Some(dead));
        let marked = cut.with_slot(v, dead);
        lemma_live_size_update(m.slots, v, Some(dead));
        let loose = SlotEntry { cached: false, ..dead };
        lemma_slot_change_linked(marked, v, Some(loose));
        lemma_live_size_update(marked.slots, v, Some(loose));
        assert(marked.slots.update(v, Some(loose)) =~= m.slots.update(v, Some(loose)));
        lemma_unlink_flags(m, k, Some(loose));
        lemma_settled_wf(marked.with_slot(v, loose), v);
    }
}

/// Whether a remote change takes the slot of the item `id` out of the index,
/// if the slot has the content tag `tag`: the change is about this item, is
/// not a folder, and tells of a deletion, of another content tag, or of
/// none.
pub open spec fn change_hits(change: RemoteChange, id: Seq<char>, tag: Seq<char>) -> bool {
    &&& change.id@ == id
    &&& !change.folder
    &&& change.deleted || match change.c_tag {
        Some(t) => t@ != tag,
        None => true,
    }
}

/// Whether one of the changes takes the slot of the item `id` out of the
/// index.
pub open spec fn hits(changes: Seq<RemoteChange>, id: Seq<char>, tag: Seq<char>) -> bool {
    exists|i: int| 0 <= i < changes.len() && change_hits(#[trigger] changes[i], id, tag)
}

/// What is left of a slot that a remote change took out of the index: the
/// slot is invalidated and out of the index, and gone if nothing else keeps
/// it.
pub open spec fn taken_out(e: SlotEntry) -> Option<SlotEntry> {
    let dead = SlotEntry { cached: false, state: e.state.with_status(Status::Invalidated), ..e };
    if dead.kept() {
        Some(dead)
    } else {
        None
    }
}

/// What a list of remote changes makes of the slot `before`: a slot in the
/// index that a change hits is taken out; every other slot stays as it is.
pub open spec fn after_sync(before: Option<SlotEntry>, changes: Seq<RemoteChange>) -> Option<SlotEntry> {
    match before {
        Some(e) => if e.cached && hits(changes, e.state.item_id@, e.state.c_tag@) {
            taken_out(e)
        } else {
            before
        },
        None => None,
    }
}

/// One remote change takes the slot that it hits out of the index and
/// leaves every other slot as it is.
pub proof fn lemma_synced_step(m: CacheModel, change: RemoteChange, v: int)
    requires
        m.wf(),
        0 <= v < m.slots.len(),
    ensures
        m.synced(change).wf(),
        m.synced(change).slots.len() == m.slots.len(),
        m.accounted() ==> m.synced(change).accounted(),
        m.synced(change).slots[v] == after_sync(m.slots[v], seq![change]),
{
    let r = m.synced(change);
    let one = seq![change];
    assert(one[0] == change);
    if m.slots[v] is Some {
        law_one_slot_per_item(m, v, v);
    }
    lemma_lookup_slot(m, change.id@);
    if !change.folder && lookup(m.entries, change.id@) is Some {
        let w = lookup(m.entries, change.id@)->0 as int;
        let used = CacheModel { entries: touched(m.entries, change.id@), ..m };
        lemma_touched_linked(m, change.id@);
        assert(used.wf());
        lemma_dropped_wf(used, change.id@);
        if m.slots[v] is Some {
            law_one_slot_per_item(m, v, w);
        }
        if change.deleted || m.tag_differs(w, change.c_tag) {
            let e = m.slots[w]->0;
            let dead = SlotEntry { state: e.state.with_status(Status::Invalidated), ..e };
            let loose = SlotEntry { cached: false, ..dead };
            assert(used.slots.update(w, Some(dead)).update(w, Some(loose)) =~= used.slots.update(
                w,
                Some(loose),
            ));
            if v == w {
                assert(change_hits(one[0], e.state.item_id@, e.state.c_tag@));
            }
        }
    }
}

/// A list of remote changes takes exactly the slots that it hits out of the
/// index and leaves every other slot as it is.
pub proof fn lemma_synced_all_slot(m: CacheModel, changes: Seq<RemoteChange>, v: int)
    requires
        m.wf(),
        0 <= v < m.slots.len(),
    ensures
        m.synced_all(changes).wf(),
        m.synced_all(changes).slots.len() == m.slots.len(),
        m.accounted() ==> m.synced_all(changes).accounted(),
        m.synced_all(changes).slots[v] == after_sync(m.slots[v], changes),
    decreases changes.len(),
{
    if changes.len() > 0 {
        let front = changes.drop_last();
        let last = changes.last();
        let prev = m.synced_all(front);
        lemma_synced_all_slot(m, front, v);
        lemma_synced_step(prev, last, v);
        assert(seq![last][0] == last);
        match m.slots[v] {
            Some(e) => {
                let id = e.state.item_id@;
                let tag = e.state.c_tag@;
                if e.cached {
                    if hits(front, id, tag) {
                        let i = choose|i: int| 0 <= i < front.len()
                            && change_hits(#[trigger] front[i], id, tag);
                        assert(changes[i] == front[i]);
                        assert(hits(changes, id, tag));
                    } else if change_hits(last, id, tag) {
                        assert(changes[changes.len() - 1] == last);
                        assert(hits(changes, id, tag));
                        assert(hits(seq![last], id, tag));
                    } else {
                        assert(!hits(seq![last], id, tag));
                        if hits(changes, id, tag) {
                            let i = choose|i: int|
                                0 <= i < changes.len() && change_hits(#[trigger] changes[i], id, tag);
                            if i < front.len() {
                                assert(front[i] == changes[i]);
                            }
                        }
                    }
                }
            },
            None => {},
        }
    }
}

/// Remote changes leave a cache without slots as it is.
pub proof fn lemma_synced_all_len(m: CacheModel, changes: Seq<RemoteChange>)
    requires
        m.wf(),
        m.slots.len() == 0,
    ensures
        m.synced_all(changes) == m,
    decreases changes.len(),
{
    if changes.len() > 0 {
        lemma_synced_all_len(m, changes.drop_last());
        lemma_lookup_slot(m, changes.last().id@);
    }
}

/// What a batch of remote changes does to the cache. A slot that is in the
/// index is taken out of it and invalidated if and only if a change of the
/// batch hits it: the change is about the item of the slot, is no folder,
/// and tells of a deletion or of another content tag than the slot has.
/// Afterwards the item has no entry in the index. Every other slot stays as
/// it is, in the index or out of it, and no slot is added.
pub proof fn law_sync_takes_what_is_hit(m: CacheModel, changes: Seq<RemoteChange>, v: int)
    requires
        m.wf(),
        0 <= v < m.slots.len(),
    ensures
        m.synced_all(changes).wf(),
        m.synced_all(changes).slots.len() == m.slots.len(),
        m.accounted() ==> m.synced_all(changes).accounted(),
        m.synced_all(changes).slots[v] == after_sync(m.slots[v], changes),
        m.slots[v] matches Some(e) ==> e.cached ==> (lookup(
            m.synced_all(changes).entries,
            e.state.item_id@,
        ) == if hits(changes, e.state.item_id@, e.state.c_tag@) {
            None::<usize>
        } else {
            Some(v as usize)
        }),
{
    let r = m.synced_all(changes);
    lemma_synced_all_slot(m, changes, v);
    match m.slots[v] {
        Some(e) => {
            if e.cached {
                let id = e.state.item_id@;
                if hits(changes, id, e.state.c_tag@) {
                    if has_key(r.entries, id) {
                        let w = r.entries[key_index(r.entries, id)].1 as int;
                        assert(r.entry_ok(r.entries[key_index(r.entries, id)]));
                        lemma_synced_all_slot(m, changes, w);
                        law_one_slot_per_item(m, v, w);
                    }
                } else {
                    law_one_slot_per_item(r, v, v);
                }
            }
        },
        None => {},
    }
}

/// The disk cache.
pub struct DiskCache {
    max_cached_file_size: u64,
    max_files: usize,
    max_total_size: u64,
    total_size: u64,
    cache: LruCache<String, usize>,
    slots: Vec<Option<SlotEntry>>,
}

impl View for DiskCache {
    type V = CacheModel;

    closed spec fn view(&self) -> CacheModel {
        CacheModel {
            entries: lru_entries(self.cache),
            slots: self.slots@,
            total: self.total_size,
            limits: Limits {
                max_cached_file_size: self.max_cached_file_size,
                max_files: self.max_files,
                max_total_size: self.max_total_size,
            },
        }
    }
}

impl DiskCache {
    /// The largest file, in bytes, that is cached.
    pub open spec fn max_cached_file_size(&self) -> u64 {
        self@.limits.max_cached_file_size
    }

    /// The largest number of entries of the index.
    pub open spec fn max_files(&self) -> usize {
        self@.limits.max_files
    }

    /// The byte budget.
    pub open spec fn max_total_size(&self) -> u64 {
        self@.limits.max_total_size
    }

    /// What holds of every disk cache.
    pub closed spec fn wf(&self) -> bool {
        &&& self@.wf()
        &&& lru_capacity(self.cache) == self.max_files
        &&& self.max_cached_file_size <= self.max_total_size
        &&& self@.entries.len() <= self.max_files
    }

    /// The limits of a cache never change.
    pub open spec fn same_limits(&self, other: &DiskCache) -> bool {
        &&& self.max_cached_file_size() == other.max_cached_file_size()
        &&& self.max_files() == other.max_files()
        &&& self.max_total_size() == other.max_total_size()
    }

    /// What every cache that is in order gives its users.
    pub proof fn lemma_wf(&self)
        requires
            self.wf(),
        ensures
            self@.wf(),
            self@.entries.len() <= self.max_files(),
            self.max_cached_file_size() <= self.max_total_size(),
    {
    }

    /// An empty cache with the limits of `config`. The largest cached file
    /// must fit into the byte budget.
    pub fn new(config: &DiskCacheConfig) -> (cache: DiskCache)
        requires
            config.max_cached_file_size <= config.max_total_size,
        ensures
            cache.wf(),
            cache@ == CacheModel::empty(
                Limits {
                    max_cached_file_size: config.max_cached_file_size,
                    max_files: config.max_files,
                    max_total_size: config.max_total_size,
                },
            ),
            cache@.accounted(),
            cache.max_cached_file_size() == config.max_cached_file_size,
            cache.max_files() == config.max_files,
            cache.max_total_size() == config.max_total_size,
    {
        DiskCache {
            max_cached_file_size: config.max_cached_file_size,
            max_files: config.max_files,
            max_total_size: config.max_total_size,
            total_size: 0,
            cache: lru_new(config.max_files),
            slots: Vec::new(),
        }
    }

    /// The count of cached bytes.
    pub fn total_size(&self) -> (total: u64)
        ensures
            total == self@.total,
    {
        self.total_size
    }

    /// The number of entries of the index.
    pub fn len(&self) -> (n: usize)
        ensures
            n == self@.entries.len(),
    {
        lru_len(&self.cache)
    }

    /// Whether the slot `v` exists.
    pub fn holds(&self, v: usize) -> (held: bool)
        ensures
            held == self@.slot(v as int) is Some,
    {
        if v < self.slots.len() {
            match &self.slots[v] {
                Some(_) => true,
                None => false,
            }
        } else {
            false
        }
    }

    /// Whether an open file holds the slot `v`.
    pub fn is_pinned(&self, v: usize) -> (pinned: bool)
        ensures
            pinned == match self@.slot(v as int) {
                Some(e) => e.pins > 0,
                None => false,
            },
    {
        if v < self.slots.len() {
            match &self.slots[v] {
                Some(e) => e.pins > 0,
                None => false,
            }
        } else {
            false
        }
    }

    /// The slot `v` with what keeps it, if the slot exists.
    pub fn slot(&self, v: usize) -> (entry: Option<&SlotEntry>)
        ensures
            match self@.slot(v as int) {
                Some(e) => entry == Some(&e),
                None => entry is None,
            },
    {
        if v < self.slots.len() {
            self.slots[v].as_ref()
        } else {
            None
        }
    }

    /// Looks up the slot of an item. A slot that is found counts as used.
    pub fn get(&mut self, item_id: &str) -> (slot: Option<usize>)
        requires
            old(self).wf(),
        ensures
            final(self).wf(),
            final(self).same_limits(old(self)),
            old(self)@.keeps_pins(final(self)@),
            old(self)@.accounted() ==> final(self)@.accounted(),
            slot == lookup(old(self)@.entries, item_id@),
            final(self)@
                == (CacheModel { entries: touched(old(self)@.entries, item_id@), ..old(self)@ }),
            slot matches Some(v) ==> final(self)@.slot(v as int) is Some,
    {
        proof {
            lemma_touched_linked(self@, item_id@);
            if has_key(self@.entries, item_id@) {
                assert(self@.entry_ok(self@.entries[key_index(self@.entries, item_id@)]));
            }
        }
        lru_touch(&mut self.cache, item_id)
    }

    fn settle(&mut self, v: usize)
        requires
            v < old(self).slots@.len(),
        ensures
            final(self)@ == old(self)@.settled(v as int),
            final(self).same_limits(old(self)),
            old(self)@.keeps_pins(final(self)@),
            lru_capacity(final(self).cache) == lru_capacity(old(self).cache),
    {
        let gone: Option<u64> = match &self.slots[v] {
            Some(e) => {
                let busy = match e.state.status {
                    Status::Downloading { .. } => true,
                    Status::Dirty { .. } => true,
                    _ => false,
                };
                if e.cached || e.pins > 0 || e.waits > 0 || busy {
                    None
                } else {
                    Some(e.state.file_size)
                }
            },
            None => None,
        };
        match gone {
            Some(size) => {
                self.slots[v] = None;
                self.total_size = if size <= self.total_size {
                    self.total_size - size
                } else {
                    u64::MAX - (size - self.total_size) + 1
                };
            },
            None => {},
        }
    }

    fn unlink(&mut self, v: usize)
        requires
            v < old(self).slots@.len(),
        ensures
            final(self)@ == old(self)@.unlinked(v as int),
            final(self).same_limits(old(self)),
            old(self)@.keeps_pins(final(self)@),
            lru_capacity(final(self).cache) == lru_capacity(old(self).cache),
    {
        match &mut self.slots[v] {
            Some(e) => {
                e.cached = false;
            },
            None => {},
        }
        proof {
            match old(self)@.slot(v as int) {
                Some(e) => {
                    assert(self.slots@ =~= old(self).slots@.update(
                        v as int,
                        Some(SlotEntry { cached: false, ..e }),
                    ));
                },
                None => {
                    assert(self.slots@ =~= old(self).slots@);
                },
            }
        }
        self.settle(v);
    }

    fn evict_front(&mut self) -> (evicted: bool)
        requires
            old(self).wf(),
        ensures
            final(self).wf(),
            final(self).same_limits(old(self)),
            old(self)@.keeps_pins(final(self)@),
            evicted == (old(self)@.entries.len() > 0),
            final(self)@ == if evicted {
                old(self)@.evict_front()
            } else {
                old(self)@
            },
    {
        match lru_remove_lru(&mut self.cache) {
            Some((_, v)) => {
                proof {
                    lemma_evict_front_wf(old(self)@);
                    assert(old(self)@.entry_ok(old(self)@.entries[0]));
                }
                self.unlink(v);
                true
            },
            None => false,
        }
    }

    fn place(&mut self, item_id: String, state: SlotState, pins: usize) -> (v: usize)
        requires
            old(self).wf(),
            state.wf(),
            state.item_id@ == item_id@,
            !has_key(old(self)@.entries, item_id@),
            pins > 0 || state.status is Downloading,
        ensures
            final(self).wf(),
            final(self).same_limits(old(self)),
            old(self)@.keeps_pins(final(self)@),
            final(self)@ == old(self)@.placed(item_id@, state, pins, old(self).max_files()),
            v == final(self)@.slots.len() - 1,
            final(self)@.slot(v as int) == Some(
                SlotEntry { state, pins, waits: 0, cached: old(self).max_files() > 0 },
            ),
    {
        let max_files = self.max_files;
        if 0 < max_files && max_files <= lru_len(&self.cache) {
            proof {
                lemma_evict_front_wf(self@);
                assert(self@.entries.drop_first() =~= self@.entries.remove(0));
                lemma_remove_linked(self@, 0);
                if has_key(self@.entries.drop_first(), item_id@) {
                    let k = key_index(self@.entries.drop_first(), item_id@);
                    assert(self@.entries[k + 1].0 == item_id@);
                }
            }
            self.evict_front();
        }
        let ghost base = self@;
        let v = self.slots.len();
        let size = state.file_size;
        let cached = max_files > 0;
        self.slots.push(Some(SlotEntry { state, pins, waits: 0, cached }));
        self.total_size = if size <= u64::MAX - self.total_size {
            self.total_size + size
        } else {
            size - (u64::MAX - self.total_size) - 1
        };
        if cached {
            lru_insert(&mut self.cache, item_id, v);
        }
        proof {
            let after = self@;
            assert(after.slots == base.slots.push(Some(SlotEntry { state, pins, waits: 0, cached })));
            if cached {
                assert(without(base.entries, item_id@) == base.entries);
                assert(after.entries == base.entries.push((item_id@, v)));
            }
            assert forall|i: int| 0 <= i < after.entries.len() implies after.entry_ok(
                #[trigger] after.entries[i],
            ) by {
                if i < base.entries.len() {
                    assert(base.entry_ok(base.entries[i]));
                }
            }
            assert forall|i: int, j: int| 0 <= i < j < after.entries.len() implies (
            #[trigger] after.entries[i]).0 != (#[trigger] after.entries[j]).0 && after.entries[i].1
                != after.entries[j].1 by {
                assert(base.entry_ok(base.entries[i]));
                if j == base.entries.len() {
                    if base.entries[i].0 == item_id@ {
                        assert(has_key(base.entries, item_id@));
                    }
                }
            }
            assert forall|w: int| 0 <= w < after.slots.len() implies match #[trigger] after.slots[w] {
                Some(e) => e.state.wf() && e.kept() && (e.cached ==> has_slot(after.entries, w)),
                None => true,
            } by {
                if w < base.slots.len() {
                    assert(after.slots[w] == base.slots[w]);
                    if has_slot(base.entries, w) {
                        let i = choose|i: int|
                            0 <= i < base.entries.len() && (#[trigger] base.entries[i]).1 == w;
                        assert(after.entries[i] == base.entries[i]);
                        assert(0 <= i < after.entries.len() && after.entries[i].1 == w);
                    }
                } else if cached {
                    let last = after.entries.len() - 1;
                    assert(0 <= last < after.entries.len() && after.entries[last].1 == w);
                }
            }
        }
        v
    }

    /// Asks for a slot for the item of `item_id`, a file of `file_size`
    /// bytes with the content tag `c_tag`.
    ///
    /// A file above the size limit for cached files gets no slot. An item
    /// that is in the index keeps its slot, which counts as used. Otherwise
    /// the least recently used entries are evicted until the file fits under
    /// the byte budget; if the index runs empty before it fits, there is no
    /// slot. If it fits, a new downloading slot is made, charged to the byte
    /// count and put into the index. With `truncate`, the slot takes only so
    /// many bytes from the download and has a truncation pending.
    pub fn try_alloc_and_fetch(
        &mut self,
        item_id: String,
        file_size: u64,
        c_tag: String,
        truncate: Option<(u64, Timestamp)>,
    ) -> (res: Alloc)
        requires
            old(self).wf(),
            truncate matches Some((cap, _)) ==> cap <= file_size,
        ensures
            final(self).wf(),
            final(self).same_limits(old(self)),
            old(self)@.keeps_pins(final(self)@),
            old(self)@.accounted() ==> final(self)@.accounted(),
            old(self).max_cached_file_size() < file_size ==> res == Alloc::NoSlot
                && final(self)@ == old(self)@,
            file_size <= old(self).max_cached_file_size() ==> res == old(self)@.alloc_answer(
                SlotState::fresh(item_id, file_size, c_tag, truncate),
                old(self).max_total_size(),
            ) && final(self)@ == old(self)@.allocated(
                SlotState::fresh(item_id, file_size, c_tag, truncate),
                old(self).max_total_size(),
                old(self).max_files(),
            ),
            res is Created
                && old(self)@.accounted() ==> final(self)@.total <= final(self).max_total_size(),
            res matches Alloc::Created(v) ==> final(self)@.slot(v as int) == Some(
                SlotEntry {
                    state: SlotState::fresh(item_id, file_size, c_tag, truncate),
                    pins: 0,
                    waits: 0,
                    cached: old(self).max_files() > 0,
                },
            ),
            res matches Alloc::Existing(v) ==> final(self)@.slot(v as int) is Some,
    {
        if self.max_cached_file_size < file_size {
            return Alloc::NoSlot;
        }
        proof {
            lemma_touched_linked(self@, item_id@);
            if has_key(self@.entries, item_id@) {
                assert(self@.entry_ok(self@.entries[key_index(self@.entries, item_id@)]));
            }
        }
        match lru_touch(&mut self.cache, item_id.as_str()) {
            Some(v) => {
                return Alloc::Existing(v);
            },
            None => {},
        }
        assert(self@ == old(self)@);
        let max = self.max_total_size;
        loop
            invariant
                self.wf(),
                self.same_limits(old(self)),
                old(self)@.keeps_pins(self@),
                max == self.max_total_size(),
                file_size <= old(self).max_cached_file_size(),
                !has_key(old(self)@.entries, item_id@),
                !has_key(self@.entries, item_id@),
                self@.slots.len() == old(self)@.slots.len(),
                self@.make_room(file_size, max) == old(self)@.make_room(file_size, max),
                old(self)@.accounted() ==> self@.accounted(),
            ensures
                self.wf(),
                self.same_limits(old(self)),
                old(self)@.keeps_pins(self@),
                !has_key(self@.entries, item_id@),
                self@ == old(self)@.make_room(file_size, max),
                self@.fits(file_size, max),
                self@.slots.len() == old(self)@.slots.len(),
                old(self)@.accounted() ==> self@.accounted(),
            decreases self@.entries.len(),
        {
            let fits = match self.total_size.checked_add(file_size) {
                Some(sum) => sum <= max,
                None => false,
            };
            if fits {
                break ;
            }
            proof {
                if self@.entries.len() > 0 {
                    lemma_evict_front_wf(self@);
                    if has_key(self@.entries.drop_first(), item_id@) {
                        let k = key_index(self@.entries.drop_first(), item_id@);
                        assert(self@.entries[k + 1].0 == item_id@);
                    }
                }
            }
            if !self.evict_front() {
                return Alloc::NoSlot;
            }
        }
        let ghost room = self@;
        let key = item_id.clone();
        let state = SlotState::new(item_id, file_size, c_tag, truncate);
        proof {
            lemma_live_size_push(
                room.slots,
                Some(SlotEntry { state, pins: 0, waits: 0, cached: self.max_files > 0 }),
            );
            if 0 < self.max_files <= room.entries.len() {
                lemma_evict_front_wf(room);
                lemma_live_size_push(
                    room.evict_front().slots,
                    Some(SlotEntry { state, pins: 0, waits: 0, cached: self.max_files > 0 }),
                );
                if room.accounted() {
                    lemma_evict_front_total(room);
                }
            }
        }
        let v = self.place(key, state, 0);
        Alloc::Created(v)
    }

    /// Puts a new, empty slot for the item of `item_id` into the cache and
    /// returns its number. The slot is available, of size zero, and held
    /// once: by the caller. A slot that the item had before leaves the index
    /// and is invalidated.
    pub fn insert_empty(&mut self, item_id: String, c_tag: String) -> (v: usize)
        requires
            old(self).wf(),
        ensures
            final(self).wf(),
            final(self).same_limits(old(self)),
            old(self)@.keeps_pins(final(self)@),
            old(self)@.accounted() ==> final(self)@.accounted(),
            final(self)@ == old(self)@.dropped(item_id@).placed(
                item_id@,
                SlotState::fresh_empty(item_id, c_tag),
                1,
                old(self).max_files(),
            ),
            v == final(self)@.slots.len() - 1,
            v >= old(self)@.slots.len(),
            final(self)@.slot(v as int) == Some(
                SlotEntry {
                    state: SlotState::fresh_empty(item_id, c_tag),
                    pins: 1,
                    waits: 0,
                    cached: old(self).max_files() > 0,
                },
            ),
    {
        self.remove(item_id.as_str());
        let ghost base = self@;
        let key = item_id.clone();
        let state = SlotState::new_empty(item_id, c_tag);
        proof {
            lemma_live_size_push(
                base.slots,
                Some(SlotEntry { state, pins: 1, waits: 0, cached: self.max_files > 0 }),
            );
            if 0 < self.max_files <= base.entries.len() {
                lemma_evict_front_wf(base);
                lemma_live_size_push(
                    base.evict_front().slots,
                    Some(SlotEntry { state, pins: 1, waits: 0, cached: self.max_files > 0 }),
                );
            }
        }
        self.place(key, state, 1)
    }

    /// Takes an item out of the index and invalidates its slot. Nothing
    /// changes if the item is not in the index.
    pub fn remove(&mut self, key: &str)
        requires
            old(self).wf(),
        ensures
            final(self).wf(),
            final(self).same_limits(old(self)),
            old(self)@.keeps_pins(final(self)@),
            final(self)@ == old(self)@.dropped(key@),
            !has_key(final(self)@.entries, key@),
            final(self)@.slots.len() == old(self)@.slots.len(),
            old(self)@.accounted() ==> final(self)@.accounted(),
    {
        proof {
            lemma_dropped_wf(self@, key@);
        }
        match lru_remove(&mut self.cache, key) {
            Some(v) => {
                assert(old(self)@.entry_ok(old(self)@.entries[key_index(old(self)@.entries, key@)]));
                match &mut self.slots[v] {
                    Some(e) => {
                        e.state.invalidate();
                    },
                    None => {},
                }
                proof {
                    let e = old(self)@.slots[v as int]->0;
                    assert(self.slots@ =~= old(self).slots@.update(
                        v as int,
                        Some(SlotEntry { state: e.state.with_status(Status::Invalidated), ..e }),
                    ));
                }
                self.unlink(v);
            },
            None => {},
        }
    }

    /// Takes in one remote change: see [`CacheModel::synced`].
    pub fn sync_item(&mut self, change: &RemoteChange)
        requires
            old(self).wf(),
        ensures
            final(self).wf(),
            final(self).same_limits(old(self)),
            old(self)@.keeps_pins(final(self)@),
            final(self)@ == old(self)@.synced(*change),
            old(self)@.accounted() ==> final(self)@.accounted(),
    {
        if change.folder {
            return ;
        }
        proof {
            lemma_touched_linked(self@, change.id@);
            if has_key(self@.entries, change.id@) {
                assert(self@.entry_ok(self@.entries[key_index(self@.entries, change.id@)]));
            }
        }
        let v = match lru_touch(&mut self.cache, change.id.as_str()) {
            Some(v) => v,
            None => {
                return ;
            },
        };
        let differs = change.deleted || match (&self.slots[v], &change.c_tag) {
            (Some(e), Some(tag)) => e.state.c_tag != *tag,
            _ => true,
        };
        if differs {
            self.remove(change.id.as_str());
        }
    }

    /// Takes in a list of remote changes, one after the other: see
    /// [`CacheModel::synced`]. A change that carries no content tag counts
    /// as one with another tag than the slot has.
    pub fn sync_items(&mut self, changes: &Vec<RemoteChange>)
        requires
            old(self).wf(),
        ensures
            final(self).wf(),
            final(self).same_limits(old(self)),
            old(self)@.keeps_pins(final(self)@),
            final(self)@ == old(self)@.synced_all(changes@),
            old(self)@.accounted() ==> final(self)@.accounted(),
            final(self)@.slots.len() == old(self)@.slots.len(),
            forall|v: int|
                0 <= v < old(self)@.slots.len() ==> #[trigger] final(self)@.slots[v] == after_sync(
                    old(self)@.slots[v],
                    changes@,
                ),
    {
        proof {
            old(self).lemma_wf();
            let synced = old(self)@.synced_all(changes@);
            assert forall|v: int| 0 <= v < old(self)@.slots.len() implies #[trigger] synced.slots[v]
                == after_sync(old(self)@.slots[v], changes@) by {
                lemma_synced_all_slot(old(self)@, changes@, v);
            }
            if old(self)@.slots.len() > 0 {
                lemma_synced_all_slot(old(self)@, changes@, 0);
            } else {
                lemma_synced_all_len(old(self)@, changes@);
            }
        }
        let mut i: usize = 0;
        while i < changes.len()
            invariant
                i <= changes@.len(),
                self.wf(),
                self.same_limits(old(self)),
                old(self)@.keeps_pins(self@),
                self@ == old(self)@.synced_all(changes@.take(i as int)),
                old(self)@.accounted() ==> self@.accounted(),
            decreases changes@.len() - i,
        {
            self.sync_item(&changes[i]);
            proof {
                let next = changes@.take(i + 1);
                assert(next.drop_last() =~= changes@.take(i as int));
                assert(next.last() == changes@[i as int]);
            }
            i += 1;
        }
        assert(changes@.take(i as int) =~= changes@);
    }

    /// Lets an open file hold the slot `v`. Fails with `PoolFull`, and
    /// changes nothing, if the slot cannot count another holder.
    pub fn pin(&mut self, v: usize) -> (res: Result<(), Error>)
        requires
            old(self).wf(),
            old(self)@.slot(v as int) is Some,
        ensures
            final(self).wf(),
            final(self).same_limits(old(self)),
            old(self)@.keeps_pins(final(self)@),
            old(self)@.accounted() ==> final(self)@.accounted(),
            match old(self)@.slot(v as int) {
                Some(e) => if e.pins < usize::MAX {
                    res is Ok && final(self)@ == old(self)@.with_slot(v as int, e.pinned())
                } else {
                    res == Err::<(), Error>(Error::PoolFull) && final(self)@ == old(self)@
                },
                None => true,
            },
    {
        let ghost e = self@.slots[v as int]->0;
        let full = match &self.slots[v] {
            Some(entry) => entry.pins == usize::MAX,
            None => true,
        };
        if full {
            return Err(Error::PoolFull);
        }
        match &mut self.slots[v] {
            Some(entry) => {
                entry.pins = entry.pins + 1;
            },
            None => {},
        }
        proof {
            let held = SlotEntry { pins: (e.pins + 1) as usize, ..e };
            assert(self.slots@ =~= old(self).slots@.update(v as int, Some(held)));
            lemma_slot_change_linked(old(self)@, v as int, Some(held));
            lemma_slot_change_flags(old(self)@, v as int, Some(held));
            lemma_live_size_update(old(self)@.slots, v as int, Some(held));
        }
        Ok(())
    }

    /// Ends the hold of an open file on the slot `v`. A slot that nothing
    /// keeps any more is gone afterwards.
    pub fn unpin(&mut self, v: usize)
        requires
            old(self).wf(),
            old(self)@.slot(v as int) matches Some(e) && e.pins > 0,
        ensures
            final(self).wf(),
            final(self).same_limits(old(self)),
            old(self)@.accounted() ==> final(self)@.accounted(),
            final(self)@ == old(self)@.with_slot(
                v as int,
                old(self)@.slots[v as int]->0.unpinned(),
            ).settled(v as int),
            forall|w: int|
                #[trigger] old(self)@.pins_of(w) <= final(self)@.pins_of(w) + if w == v {
                    1nat
                } else {
                    0nat
                },
    {
        let ghost e = self@.slots[v as int]->0;
        match &mut self.slots[v] {
            Some(entry) => {
                entry.pins = entry.pins - 1;
            },
            None => {},
        }
        proof {
            let loose = SlotEntry { pins: (e.pins - 1) as usize, ..e };
            assert(self.slots@ =~= old(self).slots@.update(v as int, Some(loose)));
            lemma_slot_change_linked(old(self)@, v as int, Some(loose));
            lemma_slot_change_flags(old(self)@, v as int, Some(loose));
            lemma_live_size_update(old(self)@.slots, v as int, Some(loose));
            lemma_settled_wf(old(self)@.with_slot(v as int, loose), v as int);
        }
        self.settle(v);
    }

    /// Lets a flush wait for the slot `v`. Fails with `PoolFull`, and
    /// changes nothing, if the slot cannot count another flush.
    pub fn wait_begin(&mut self, v: usize) -> (res: Result<(), Error>)
        requires
            old(self).wf(),
            old(self)@.slot(v as int) is Some,
        ensures
            final(self).wf(),
            final(self).same_limits(old(self)),
            old(self)@.keeps_pins(final(self)@),
            old(self)@.accounted() ==> final(self)@.accounted(),
            match old(self)@.slot(v as int) {
                Some(e) => if e.waits < usize::MAX {
                    res is Ok && final(self)@ == old(self)@.with_slot(v as int, e.awaited())
                } else {
                    res == Err::<(), Error>(Error::PoolFull) && final(self)@ == old(self)@
                },
                None => true,
            },
    {
        let ghost e = self@.slots[v as int]->0;
        let full = match &self.slots[v] {
            Some(entry) => entry.waits == usize::MAX,
            None => true,
        };
        if full {
            return Err(Error::PoolFull);
        }
        match &mut self.slots[v] {
            Some(entry) => {
                entry.waits = entry.waits + 1;
            },
            None => {},
        }
        proof {
            assert(self.slots@ =~= old(self).slots@.update(v as int, Some(e.awaited())));
            lemma_slot_change_linked(old(self)@, v as int, Some(e.awaited()));
            lemma_slot_change_flags(old(self)@, v as int, Some(e.awaited()));
            lemma_live_size_update(old(self)@.slots, v as int, Some(e.awaited()));
        }
        Ok(())
    }

    /// Ends the wait of a flush for the slot `v`. A slot that nothing keeps
    /// any more is gone afterwards.
    pub fn wait_end(&mut self, v: usize)
        requires
            old(self).wf(),
            old(self)@.slot(v as int) matches Some(e) && e.waits > 0,
        ensures
            final(self).wf(),
            final(self).same_limits(old(self)),
            old(self)@.keeps_pins(final(self)@),
            old(self)@.accounted() ==> final(self)@.accounted(),
            final(self)@ == old(self)@.with_slot(
                v as int,
                old(self)@.slots[v as int]->0.unawaited(),
            ).settled(v as int),
    {
        let ghost e = self@.slots[v as int]->0;
        match &mut self.slots[v] {
            Some(entry) => {
                entry.waits = entry.waits - 1;
            },
            None => {},
        }
        proof {
            assert(self.slots@ =~= old(self).slots@.update(v as int, Some(e.unawaited())));
            lemma_slot_change_linked(old(self)@, v as int, Some(e.unawaited()));
            lemma_slot_change_flags(old(self)@, v as int, Some(e.unawaited()));
            lemma_live_size_update(old(self)@.slots, v as int, Some(e.unawaited()));
            lemma_settled_wf(old(self)@.with_slot(v as int, e.unawaited()), v as int);
        }
        self.settle(v);
    }

    /// Decides how the slot `v` serves a read: see [`SlotState::read`].
    pub fn read(&self, v: usize, offset: u64, size: usize) -> (res: Result<ReadPlan, Error>)
        requires
            self@.slot(v as int) is Some,
        ensures
            res == self@.slots[v as int]->0.state.read_outcome(offset, size),
    {
        match &self.slots[v] {
            Some(e) => e.state.read(offset, size),
            None => Err(Error::Invalidated),
        }
    }

    /// Decides on a write to the slot `v`: see [`SlotState::write`]. The
    /// bytes by which the file grows are added to the byte count.
    pub fn write(&mut self, v: usize, offset: u64, len: usize, mtime: Timestamp, max_size: u64) -> (res:
        Result<WritePlan, Error>)
        requires
            old(self).wf(),
            old(self)@.slot(v as int) is Some,
        ensures
            final(self).wf(),
            final(self).same_limits(old(self)),
            old(self)@.keeps_pins(final(self)@),
            res == old(self)@.slots[v as int]->0.state.write_outcome(offset, len, mtime, max_size),
            ({
                let before = old(self)@.slots[v as int]->0.state;
                let after = before.written_to(offset, len, max_size);
                let grown = (after.file_size - before.file_size) as u64;
                &&& final(self)@ == old(self)@.with_state(v as int, after).grown_by(grown)
                &&& old(self)@.accounted()
                    && old(self)@.total + grown <= u64::MAX ==> final(self)@.accounted()
            }),
    {
        let ghost e = self@.slots[v as int]->0;
        let res = match &mut self.slots[v] {
            Some(entry) => entry.state.write(offset, len, mtime, max_size),
            None => Err(Error::Invalidated),
        };
        let grown: u64 = match &res {
            Ok(WritePlan::Store { grown, .. }) => *grown,
            _ => 0,
        };
        self.total_size = if grown <= u64::MAX - self.total_size {
            self.total_size + grown
        } else {
            grown - (u64::MAX - self.total_size) - 1
        };
        proof {
            let after = self.slots@[v as int]->0.state;
            let changed = SlotEntry { state: after, ..e };
            assert(self.slots@ =~= old(self).slots@.update(v as int, Some(changed)));
            lemma_slot_change_linked(old(self)@, v as int, Some(changed));
            lemma_slot_change_flags(old(self)@, v as int, Some(changed));
            lemma_live_size_update(old(self)@.slots, v as int, Some(changed));
        }
        res
    }

    /// Decides on a truncation of the slot `v`: see [`SlotState::truncate`].
    /// The byte count stays as it is.
    pub fn truncate(&mut self, v: usize, new_size: u64, mtime: Timestamp) -> (plan: TruncatePlan)
        requires
            old(self).wf(),
            old(self)@.slot(v as int) is Some,
        ensures
            final(self).wf(),
            final(self).same_limits(old(self)),
            old(self)@.keeps_pins(final(self)@),
            plan == old(self)@.slots[v as int]->0.state.truncate_outcome(new_size),
            final(self)@ == old(self)@.with_state(
                v as int,
                old(self)@.slots[v as int]->0.state.after_truncate(new_size, mtime),
            ),
            old(self)@.accounted() && (new_size == old(self)@.slots[v as int]->0.state.file_size || !(
            plan is Resize)) ==> final(self)@.accounted(),
    {
        let ghost e = self@.slots[v as int]->0;
        let plan = match &mut self.slots[v] {
            Some(entry) => entry.state.truncate(new_size, mtime),
            None => TruncatePlan::Refetch,
        };
        proof {
            let changed = SlotEntry { state: e.state.after_truncate(new_size, mtime), ..e };
            assert(self.slots@ =~= old(self).slots@.update(v as int, Some(changed)));
            lemma_slot_change_linked(old(self)@, v as int, Some(changed));
            lemma_slot_change_flags(old(self)@, v as int, Some(changed));
            lemma_live_size_update(old(self)@.slots, v as int, Some(changed));
        }
        plan
    }

    /// Decides what a flush of the slot `v` waits for: see
    /// [`SlotState::flush`].
    pub fn flush(&mut self, v: usize) -> (res: Result<FlushPlan, Error>)
        requires
            old(self).wf(),
            old(self)@.slot(v as int) is Some,
        ensures
            final(self).wf(),
            final(self).same_limits(old(self)),
            old(self)@.keeps_pins(final(self)@),
            old(self)@.accounted() ==> final(self)@.accounted(),
            res == old(self)@.slots[v as int]->0.state.flush_outcome(),
            final(self)@ == old(self)@.with_state(
                v as int,
                old(self)@.slots[v as int]->0.state.after_flush(),
            ),
    {
        let ghost e = self@.slots[v as int]->0;
        let res = match &mut self.slots[v] {
            Some(entry) => entry.state.flush(),
            None => Ok(FlushPlan::Done),
        };
        proof {
            let changed = SlotEntry { state: self.slots@[v as int]->0.state, ..e };
            assert(self.slots@ =~= old(self).slots@.update(v as int, Some(changed)));
            lemma_slot_change_linked(old(self)@, v as int, Some(changed));
            lemma_slot_change_flags(old(self)@, v as int, Some(changed));
            lemma_live_size_update(old(self)@.slots, v as int, Some(changed));
        }
        res
    }

    /// Hands a chunk of the download to the writer of the slot `v`: see
    /// [`SlotState::accept_chunk`]. A slot that is gone, or that only its
    /// writer still holds while no truncation is pending, makes the writer
    /// stop; in the second case the slot is gone afterwards.
    pub fn accept_chunk(&mut self, v: usize, chunk: Bytes) -> (step: WriterStep)
        requires
            old(self).wf(),
        ensures
            final(self).wf(),
            final(self).same_limits(old(self)),
            old(self)@.keeps_pins(final(self)@),
            old(self)@.accounted() ==> final(self)@.accounted(),
            final(self)@ == old(self)@.after_chunk(v as int, chunk_bytes(chunk).len()),
            match old(self)@.slot(v as int) {
                Some(e) => step.matches_plan(
                    e.state,
                    e.state.after_chunk(chunk_bytes(chunk).len(), old(self)@.sole_owner(v as int)),
                    chunk_bytes(chunk),
                    old(self)@.sole_owner(v as int),
                ),
                None => step is Abort,
            },
    {
        if !self.holds(v) {
            return WriterStep::Abort;
        }
        let ghost e = self@.slots[v as int];
        let (step, orphan): (WriterStep, bool) = match &mut self.slots[v] {
            Some(entry) => {
                let sole = !entry.cached && entry.pins == 0 && entry.waits == 0;
                let downloading = match entry.state.status {
                    Status::Downloading { .. } => true,
                    _ => false,
                };
                let step = entry.state.accept_chunk(chunk, sole);
                let stopped = match &step {
                    WriterStep::Abort => true,
                    _ => false,
                };
                (step, downloading && stopped)
            },
            None => (WriterStep::Abort, false),
        };
        proof {
            let before = e->0;
            let changed = SlotEntry { state: self.slots@[v as int]->0.state, ..before };
            assert(self.slots@ =~= old(self).slots@.update(v as int, Some(changed)));
            lemma_slot_change_linked(old(self)@, v as int, Some(changed));
            lemma_slot_change_flags(old(self)@, v as int, Some(changed));
            lemma_live_size_update(old(self)@.slots, v as int, Some(changed));
            if orphan {
                assert(self.slots@ =~= old(self).slots@);
                assert forall|i: int| 0
                    <= i < self@.entries.len() implies (#[trigger] self@.entries[i]).1
                    != v by {
                    assert(self@.entry_ok(self@.entries[i]));
                }
                lemma_slot_change_linked(self@, v as int, None);
                lemma_slot_change_flags(self@, v as int, None);
                lemma_live_size_update(self@.slots, v as int, None);
                lemma_live_size_bound(self@.slots, v as int);
            } else {
                lemma_settled_wf(old(self)@.with_slot(v as int, changed), v as int);
            }
        }
        if orphan {
            let size = match &self.slots[v] {
                Some(entry) => entry.state.file_size,
                None => 0,
            };
            self.slots[v] = None;
            self.total_size = if size <= self.total_size {
                self.total_size - size
            } else {
                u64::MAX - (size - self.total_size) + 1
            };
        } else {
            self.settle(v);
        }
        step
    }

    /// Tells the slot `v` that no more chunks will arrive: see
    /// [`SlotState::finish_download`]. A slot that nothing keeps any more is
    /// gone afterwards.
    pub fn finish_download(&mut self, v: usize) -> (end: DownloadEnd)
        requires
            old(self).wf(),
        ensures
            final(self).wf(),
            final(self).same_limits(old(self)),
            old(self)@.keeps_pins(final(self)@),
            old(self)@.accounted() ==> final(self)@.accounted(),
            match old(self)@.slot(v as int) {
                Some(e) => final(self)@ == old(self)@.with_state(
                    v as int,
                    e.state.after_download_end(),
                ).settled(v as int) && end == e.state.download_end(),
                None => final(self)@ == old(self)@ && end == DownloadEnd::Aborted,
            },
    {
        if !self.holds(v) {
            return DownloadEnd::Aborted;
        }
        let ghost e = self@.slots[v as int];
        let end = match &mut self.slots[v] {
            Some(entry) => entry.state.finish_download(),
            None => DownloadEnd::Aborted,
        };
        proof {
            let before = e->0;
            let changed = SlotEntry { state: before.state.after_download_end(), ..before };
            assert(self.slots@ =~= old(self).slots@.update(v as int, Some(changed)));
            lemma_slot_change_linked(old(self)@, v as int, Some(changed));
            lemma_slot_change_flags(old(self)@, v as int, Some(changed));
            lemma_live_size_update(old(self)@.slots, v as int, Some(changed));
            lemma_settled_wf(old(self)@.with_slot(v as int, changed), v as int);
        }
        self.settle(v);
        end
    }

    /// Asks whether the upload of the slot `v` tagged `epoch` is to go
    /// ahead: see [`SlotState::begin_upload`]. It is not if the slot is gone.
    pub fn begin_upload(&self, v: usize, epoch: u64) -> (len: Option<u64>)
        ensures
            len == match self@.slot(v as int) {
                Some(e) => if e.state.upload_is_current(epoch) {
                    Some(e.state.file_size)
                } else {
                    None
                },
                None => None,
            },
    {
        if v >= self.slots.len() {
            return None;
        }
        match &self.slots[v] {
            Some(e) => e.state.begin_upload(epoch),
            None => None,
        }
    }

    /// Tells the slot `v` that its upload tagged `epoch` succeeded: see
    /// [`SlotState::finish_upload`]. Nothing is announced if the slot is
    /// gone. A slot that nothing keeps any more is gone afterwards.
    pub fn finish_upload(&mut self, v: usize, epoch: u64, size: u64, mtime: Timestamp, c_tag: String) -> (event:
        Option<UpdatedFileAttr>)
        requires
            old(self).wf(),
        ensures
            final(self).wf(),
            final(self).same_limits(old(self)),
            old(self)@.keeps_pins(final(self)@),
            old(self)@.accounted() ==> final(self)@.accounted(),
            match old(self)@.slot(v as int) {
                Some(e) => final(self)@ == old(self)@.with_state(
                    v as int,
                    e.state.after_upload(epoch, c_tag),
                ).settled(v as int) && event == e.state.upload_event(epoch, size, mtime, c_tag),
                None => final(self)@ == old(self)@ && event is None,
            },
    {
        if !self.holds(v) {
            return None;
        }
        let ghost e = self@.slots[v as int];
        let event = match &mut self.slots[v] {
            Some(entry) => entry.state.finish_upload(epoch, size, mtime, c_tag),
            None => None,
        };
        proof {
            let before = e->0;
            let changed = SlotEntry { state: self.slots@[v as int]->0.state, ..before };
            assert(self.slots@ =~= old(self).slots@.update(v as int, Some(changed)));
            lemma_slot_change_linked(old(self)@, v as int, Some(changed));
            lemma_slot_change_flags(old(self)@, v as int, Some(changed));
            lemma_live_size_update(old(self)@.slots, v as int, Some(changed));
            lemma_settled_wf(old(self)@.with_slot(v as int, changed), v as int);
        }
        self.settle(v);
        event
    }
}

} // verus!
