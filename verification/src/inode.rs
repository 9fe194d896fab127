//! The inode pool: inode numbers for remote items, counted by reference.
//!
//! Every item that the filesystem has handed out has a key in a table and,
//! under its id, an entry with that key, a reference count and the
//! attributes that were last fetched for it. An inode number is the key
//! plus a fixed shift, chosen so that the root item has the number 1.

use vstd::prelude::*;
use vstd::hash_map::StringHashMap;
use vstd::string::*;
use sharded_slab::Slab;
use crate::error::{Error, Timestamp};

verus! {

/// The inode number of the root item.
pub const ROOT_INO: u64 = 1;

/// Configuration of the inode pool.
#[derive(Clone, Copy, Debug, PartialEq, Eq)]
pub struct Config {
    /// How long fetched attributes are served from the pool, in nanoseconds.
    pub attr_cache_ttl: u64,
}

/// The attributes of an item.
#[derive(Clone, Copy, Debug, PartialEq, Eq, Structural)]
pub struct InodeAttr {
    pub size: u64,
    pub mtime: Timestamp,
    pub crtime: Timestamp,
    pub is_directory: bool,
}

/// What the remote side reports of an item, as far as the pool reads it.
#[derive(Clone, Debug, PartialEq, Eq)]
pub struct RemoteItem {
    pub id: Option<String>,
    pub size: Option<i64>,
    pub last_modified_date_time: Option<String>,
    pub created_date_time: Option<String>,
    /// The item is a folder.
    pub folder: bool,
}

/// What the pool keeps of an item under its id.
#[derive(Clone, Copy, Debug, PartialEq, Eq)]
pub struct Inode {
    /// The key of the item in the table.
    pub key: usize,
    /// How many references the filesystem holds.
    pub ref_count: u64,
    /// The attributes that were last fetched, and when.
    pub attr_cache: Option<(InodeAttr, u64)>,
}

/// How the attributes of an inode are to be had.
#[derive(Clone, Debug, PartialEq, Eq)]
pub enum AttrStep {
    /// From the pool: the attributes, and for how long they are good yet.
    Cached { attr: InodeAttr, ttl: u64 },
    /// From the remote side: fetch the attributes of this item and hand
    /// them to [`InodePool::attr_fetched`].
    Fetch { item_id: String },
}

/// A `sharded_slab::Slab` of item ids, opaque to the verifier.
#[verifier::external_body]
pub struct KeyTable {
    slab: Slab<String>,
}

/// Item ids by their keys.
pub type Keys = Map<usize, Seq<char>>;

/// The item ids of a table by their keys.
pub uninterp spec fn key_table_entries(table: KeyTable) -> Keys;

/// `Slab::new`: an empty table.
#[verifier::external_body]
fn key_table_new() -> (table: KeyTable)
    ensures
        key_table_entries(table) == Keys::empty(),
{
    KeyTable { slab: Slab::new() }
}

/// `Slab::insert`: stores the id under a key that was not in use and returns
/// the key, or stores nothing and returns `None` when the table has no room.
/// (The outside function panics if more threads use slabs at the same time
/// than the crate's configuration allows, 4096 by default.)
#[verifier::external_body]
fn key_table_insert(table: &mut KeyTable, item_id: String) -> (key: Option<usize>)
    ensures
        match key {
            Some(k) => !key_table_entries(*old(table)).dom().contains(k) && key_table_entries(
                *final(table),
            ) == key_table_entries(*old(table)).insert(k, item_id@),
            None => key_table_entries(*final(table)) == key_table_entries(*old(table)),
        },
{
    table.slab.insert(item_id)
}

/// `Slab::get`: a copy of the id under the key, if the key is in use.
#[verifier::external_body]
fn key_table_get(table: &KeyTable, key: usize) -> (item_id: Option<String>)
    ensures
        match item_id {
            Some(id) => key_table_entries(*table).dom().contains(key) && id@ == key_table_entries(
                *table,
            )[key],
            None => !key_table_entries(*table).dom().contains(key),
        },
{
    table.slab.get(key).map(|entry| entry.clone())
}

/// `Slab::remove` on a key that is in use: takes the id under the key out of
/// the table and returns `true`. A key that is not in use is left out,
/// because the outside function may take a key that was given up before for
/// the one that follows it in the same place.
#[verifier::external_body]
fn key_table_remove(table: &mut KeyTable, key: usize) -> (removed: bool)
    requires
        key_table_entries(*old(table)).dom().contains(key),
    ensures
        removed,
        key_table_entries(*final(table)) == key_table_entries(*old(table)).remove(key),
{
    table.slab.remove(key)
}

/// The format of a time with a fraction of a second.
pub open spec fn fraction_format() -> Seq<char> {
    "%Y-%m-%dT%H:%M:%S.%f%z"@
}

/// The format of a time in whole seconds.
pub open spec fn seconds_format() -> Seq<char> {
    "%Y-%m-%dT%H:%M:%S%z"@
}

/// Whether `time::strptime` reads `text` by `format`.
pub uninterp spec fn strptime_accepts(text: Seq<char>, format: Seq<char>) -> bool;

/// `time::strptime`, and `Tm::to_timespec` on what it gives: the time that
/// `text` names when read by `format`, as seconds and nanoseconds since the
/// Unix epoch, or `None` if `text` does not match. Only the two formats of
/// remote times are let in: with them no field that is read can make the
/// outside functions panic. Nothing is said of the seconds: for a zone other
/// than UTC they are those of the time zone of the machine, and for UTC they
/// go by the width of the machine's time type. The nanoseconds are less than
/// a second.
#[verifier::external_body]
fn strptime_timespec(text: &str, format: &str) -> (time: Option<Timestamp>)
    requires
        format@ == fraction_format() || format@ == seconds_format(),
    ensures
        time is Some == strptime_accepts(text@, format@),
        time matches Some(t) ==> 0 <= t.nsec < 1_000_000_000,
{
    time::strptime(text, format).ok().map(|tm| tm.to_timespec()).map(
        |spec| Timestamp { sec: spec.sec, nsec: spec.nsec },
    )
}

/// Whether `text` is a time as the remote side writes it: date and time of
/// day, with or without a fraction of a second, and a zone.
pub open spec fn is_remote_time(text: Seq<char>) -> bool {
    strptime_accepts(text, fraction_format()) || strptime_accepts(text, seconds_format())
}

/// The characters that the name of a remote file must not hold.
pub open spec fn is_invalid_name_char(c: char) -> bool {
    c == '"' || c == '*' || c == ':' || c == '<' || c == '>' || c == '?' || c == '/' || c == '\\' || c
        == '|'
}

/// Whether `name` can be the name of a remote file: it is not empty and holds
/// none of the characters `" * : < > ? / \ |`.
pub open spec fn is_valid_file_name(name: Seq<char>) -> bool {
    name.len() > 0 && forall|i: int| 0 <= i < name.len() ==> !is_invalid_name_char(#[trigger] name[i])
}

/// Checks the name of a remote file. A name that cannot be one is refused
/// with `InvalidFileName`.
pub fn cvt_filename(name: &str) -> (res: Result<(), Error>)
    ensures
        is_valid_file_name(name@) ==> res is Ok,
        !is_valid_file_name(name@) ==> (res matches Err(Error::InvalidFileName(n)) && n@ == name@),
{
    let len = name.unicode_len();
    if len == 0 {
        return Err(Error::InvalidFileName(name.to_owned()));
    }
    let mut i: usize = 0;
    while i < len
        invariant
            i <= len == name@.len(),
            forall|j: int| 0 <= j < i ==> !is_invalid_name_char(#[trigger] name@[j]),
        decreases len - i,
    {
        let c = name.get_char(i);
        if c == '"' || c == '*' || c == ':' || c == '<' || c == '>' || c == '?' || c == '/' || c == '\\'
            || c == '|' {
            return Err(Error::InvalidFileName(name.to_owned()));
        }
        i += 1;
    }
    Ok(())
}

/// The size that the remote side reports, as an unsigned number: a negative
/// report wraps around.
pub open spec fn size_of_report(size: i64) -> u64 {
    if size >= 0 {
        size as u64
    } else {
        (size + 0x1_0000_0000_0000_0000) as u64
    }
}

impl InodeAttr {
    /// The attributes of an item from what the remote side reports.
    pub fn from_parts(size: i64, mtime: Timestamp, crtime: Timestamp, is_directory: bool) -> (attr:
        InodeAttr)
        ensures
            attr == (InodeAttr { size: size_of_report(size), mtime, crtime, is_directory }),
    {
        let size: u64 = if size >= 0 {
            size as u64
        } else {
            (size - i64::MIN) as u64 + 0x8000_0000_0000_0000u64
        };
        InodeAttr { size, mtime, crtime, is_directory }
    }

    /// Reads a time as the remote side writes it: date and time of day, with
    /// or without a fraction of a second, and a zone. `None` if `text` is
    /// not such a time.
    pub fn parse_time(text: &str) -> (time: Option<Timestamp>)
        ensures
            time is Some == is_remote_time(text@),
            time matches Some(t) ==> 0 <= t.nsec < 1_000_000_000,
    {
        match strptime_timespec(text, "%Y-%m-%dT%H:%M:%S.%f%z") {
            Some(time) => Some(time),
            None => strptime_timespec(text, "%Y-%m-%dT%H:%M:%S%z"),
        }
    }

    /// Whether the report of an item holds all that the attributes need,
    /// with times that can be read.
    pub open spec fn is_complete(item: RemoteItem) -> bool {
        &&& item.id is Some
        &&& item.size is Some
        &&& item.last_modified_date_time matches Some(text) && is_remote_time(text@)
        &&& item.created_date_time matches Some(text) && is_remote_time(text@)
    }

    /// The id and the attributes of an item from its report. `None` if the
    /// report lacks the id, the size or one of the two times, or if one of
    /// the times cannot be read.
    pub fn parse_drive_item(item: &RemoteItem) -> (res: Option<(String, InodeAttr)>)
        ensures
            res is Some == Self::is_complete(*item),
            res matches Some((id, attr)) ==> id@ == item.id->0@ && attr.size == size_of_report(
                item.size->0,
            ) && attr.is_directory == item.folder && 0 <= attr.mtime.nsec < 1_000_000_000 && 0
                <= attr.crtime.nsec < 1_000_000_000,
    {
        let id = match &item.id {
            Some(id) => id.clone(),
            None => {
                return None;
            },
        };
        let size = match item.size {
            Some(size) => size,
            None => {
                return None;
            },
        };
        let mtime = match &item.last_modified_date_time {
            Some(text) => match Self::parse_time(text.as_str()) {
                Some(time) => time,
                None => {
                    return None;
                },
            },
            None => {
                return None;
            },
        };
        let crtime = match &item.created_date_time {
            Some(text) => match Self::parse_time(text.as_str()) {
                Some(time) => time,
                None => {
                    return None;
                },
            },
            None => {
                return None;
            },
        };
        Some((id, Self::from_parts(size, mtime, crtime, item.folder)))
    }
}


/// The inode number of a key under a shift: their sum, which wraps around.
pub open spec fn ino_of(key: usize, shift: u64) -> u64 {
    if key + shift <= u64::MAX {
        (key + shift) as u64
    } else {
        (key + shift - 0x1_0000_0000_0000_0000) as u64
    }
}

/// The number that a shift adds to which gives `ino`.
pub open spec fn unshifted(ino: u64, shift: u64) -> u64 {
    if shift <= ino {
        (ino - shift) as u64
    } else {
        (ino - shift + 0x1_0000_0000_0000_0000) as u64
    }
}

/// The key of an inode number under a shift, if there is one.
pub open spec fn key_of(ino: u64, shift: u64) -> Option<usize> {
    if unshifted(ino, shift) <= usize::MAX {
        Some(unshifted(ino, shift) as usize)
    } else {
        None
    }
}

/// For how long attributes that were fetched at `fetched_at` are good at
/// `now`, if they still are: they are while their age is less than `ttl`.
/// A clock that went back counts as no time gone.
pub open spec fn ttl_left(ttl: u64, fetched_at: u64, now: u64) -> Option<u64> {
    let elapsed = if fetched_at <= now {
        now - fetched_at
    } else {
        0
    };
    if elapsed < ttl {
        Some((ttl - elapsed) as u64)
    } else {
        None
    }
}

/// The pool of inodes.
pub struct InodePool {
    ino_shift: u64,
    pool: KeyTable,
    rev_map: StringHashMap<Inode>,
    config: Config,
}

impl InodePool {
    /// The item ids of the pool by their keys.
    pub closed spec fn keys(&self) -> Keys {
        key_table_entries(self.pool)
    }

    /// The inodes of the pool by their item ids.
    pub closed spec fn inodes(&self) -> Map<Seq<char>, Inode> {
        self.rev_map@
    }

    /// What is added to a key to give its inode number.
    pub closed spec fn shift(&self) -> u64 {
        self.ino_shift
    }

    /// How long fetched attributes are served from the pool, in nanoseconds.
    pub closed spec fn ttl(&self) -> u64 {
        self.config.attr_cache_ttl
    }

    /// What holds of every pool: keys and item ids lead to each other, and
    /// every inode is referenced at least once.
    pub open spec fn wf(&self) -> bool {
        &&& forall|k: usize| #[trigger]
            self.keys().dom().contains(k) ==> self.inodes().dom().contains(self.keys()[k])
                && self.inodes()[self.keys()[k]].key == k
        &&& forall|id: Seq<char>| #[trigger]
            self.inodes().dom().contains(id) ==> self.keys().dom().contains(self.inodes()[id].key)
                && self.keys()[self.inodes()[id].key] == id && self.inodes()[id].ref_count >= 1
    }

    /// The item of an inode number, if the number is live.
    pub open spec fn item(&self, ino: u64) -> Option<Seq<char>> {
        match key_of(ino, self.shift()) {
            Some(key) => if self.keys().dom().contains(key) {
                Some(self.keys()[key])
            } else {
                None
            },
            None => None,
        }
    }

    /// Every live inode is referenced: its item has an entry that counts at
    /// least one reference and leads back to the inode; and an item has no
    /// more than one live inode number.
    pub proof fn law_live_inodes_are_referenced(&self, ino: u64, other: u64)
        requires
            self.wf(),
            self.item(ino) is Some,
        ensures
            self.inodes().dom().contains(self.item(ino)->0),
            self.inodes()[self.item(ino)->0].ref_count >= 1,
            key_of(ino, self.shift()) == Some(self.inodes()[self.item(ino)->0].key),
            self.item(other) == self.item(ino) ==> other == ino,
    {
        let key = key_of(ino, self.shift())->0;
        assert(self.keys().dom().contains(key));
        if self.item(other) == self.item(ino) {
            let second = key_of(other, self.shift())->0;
            assert(self.keys().dom().contains(second));
            assert(second == key);
        }
    }

    fn key_to_ino(&self, key: usize) -> (ino: u64)
        ensures
            ino == ino_of(key, self.shift()),
            key_of(ino, self.shift()) == Some(key),
    {
        let key = key as u64;
        if key <= u64::MAX - self.ino_shift {
            key + self.ino_shift
        } else {
            key - (u64::MAX - self.ino_shift) - 1
        }
    }

    fn ino_to_key(&self, ino: u64) -> (key: Option<usize>)
        ensures
            key == key_of(ino, self.shift()),
    {
        let raw: u64 = if self.ino_shift <= ino {
            ino - self.ino_shift
        } else {
            u64::MAX - (self.ino_shift - ino) + 1
        };
        if raw <= usize::MAX as u64 {
            Some(raw as usize)
        } else {
            None
        }
    }

    /// Whether the item `id` is known and can count one reference more. A
    /// reference to such an item is taken without asking the table for a
    /// key, so it cannot fail.
    pub open spec fn can_count(&self, id: Seq<char>) -> bool {
        self.inodes().dom().contains(id) && self.inodes()[id].ref_count < u64::MAX
    }

    /// The inodes after one more reference to the item `id`, whose key is
    /// `key`: a known item counts one more, a new item starts at one.
    pub open spec fn acquired(inodes: Map<Seq<char>, Inode>, id: Seq<char>, key: usize) -> Map<
        Seq<char>,
        Inode,
    > {
        if inodes.dom().contains(id) {
            inodes.insert(id, Inode { ref_count: (inodes[id].ref_count + 1) as u64, ..inodes[id] })
        } else {
            inodes.insert(id, Inode { key, ref_count: 1, attr_cache: None })
        }
    }

    /// Takes a reference to an item and returns its key. A known item keeps
    /// its key and counts one reference more; a new item gets a key that is
    /// not in use, and one reference. Fails with `PoolFull`, and changes
    /// nothing, if a new key is not to be had or the count is at its limit.
    pub fn acquire_or_alloc(&mut self, item_id: String) -> (res: Result<usize, Error>)
        requires
            old(self).wf(),
        ensures
            final(self).wf(),
            final(self).shift() == old(self).shift(),
            final(self).ttl() == old(self).ttl(),
            old(self).can_count(item_id@)
                ==> res == Ok::<usize, Error>(old(self).inodes()[item_id@].key),
            old(self).inodes().dom().contains(item_id@)
                && !old(self).can_count(item_id@) ==> res is Err,
            forall|id: Seq<char>|
                id != item_id@
                    ==> final(self).inodes().dom().contains(id)
                    == old(self).inodes().dom().contains(id)
                    && final(self).inodes()[id] == #[trigger] old(self).inodes()[id],
            match res {
                Ok(key) => {
                    &&& final(self).inodes() == Self::acquired(old(self).inodes(), item_id@, key)
                    &&& final(self).keys() == old(self).keys().insert(key, item_id@)
                    &&& final(self).inodes()[item_id@].key == key
                    &&& old(self).inodes().dom().contains(item_id@) == old(self).keys().dom().contains(
                        key,
                    )
                    &&& old(self).inodes().dom().contains(item_id@)
                        ==> old(self).inodes()[item_id@].ref_count
                        < u64::MAX
                },
                Err(e) => e == Error::PoolFull && final(self).inodes() == old(self).inodes()
                    && final(self).keys() == old(self).keys(),
            },
    {
        let known: Option<Inode> = match self.rev_map.get(item_id.as_str()) {
            Some(inode) => Some(*inode),
            None => None,
        };
        match known {
            Some(inode) => {
                if inode.ref_count == u64::MAX {
                    return Err(Error::PoolFull);
                }
                let key = inode.key;
                self.rev_map.insert(item_id, Inode { ref_count: inode.ref_count + 1, ..inode });
                assert(self.keys() =~= old(self).keys().insert(key, item_id@));
                Ok(key)
            },
            None => {
                let id = item_id.clone();
                match key_table_insert(&mut self.pool, id) {
                    Some(key) => {
                        self.rev_map.insert(item_id, Inode { key, ref_count: 1, attr_cache: None });
                        assert forall|k: usize| #[trigger]
                            self.keys().dom().contains(k) implies self.inodes().dom().contains(
                            self.keys()[k],
                        ) && self.inodes()[self.keys()[k]].key == k by {
                            if k != key {
                                assert(old(self).keys().dom().contains(k));
                            }
                        }
                        assert forall|id: Seq<char>| #[trigger]
                            self.inodes().dom().contains(id) implies self.keys().dom().contains(
                            self.inodes()[id].key,
                        ) && self.keys()[self.inodes()[id].key] == id && self.inodes()[id].ref_count
                            >= 1 by {
                            if id != item_id@ {
                                assert(old(self).inodes().dom().contains(id));
                            }
                        }
                        Ok(key)
                    },
                    None => Err(Error::PoolFull),
                }
            },
        }
    }

    /// A pool that holds the root item under the inode number 1, with one
    /// reference. Fails with `PoolFull` if the table has no key for it.
    pub fn new(root_item_id: String, config: Config) -> (res: Result<InodePool, Error>)
        ensures
            match res {
                Ok(pool) => {
                    &&& pool.wf()
                    &&& pool.ttl() == config.attr_cache_ttl
                    &&& pool.item(ROOT_INO) == Some(root_item_id@)
                    &&& pool.inodes().dom() == set![root_item_id@]
                    &&& pool.inodes()[root_item_id@].ref_count == 1
                    &&& pool.inodes()[root_item_id@].attr_cache is None
                },
                Err(e) => e == Error::PoolFull,
            },
    {
        let mut pool = InodePool {
            ino_shift: 0,
            pool: key_table_new(),
            rev_map: StringHashMap::new(),
            config,
        };
        let root_key = match pool.acquire_or_alloc(root_item_id) {
            Ok(key) => key,
            Err(e) => {
                return Err(e);
            },
        };
        let key = root_key as u64;
        pool.ino_shift = if key <= ROOT_INO {
            ROOT_INO - key
        } else {
            u64::MAX - (key - ROOT_INO) + 1
        };
        assert(pool.inodes().dom() =~= set![root_item_id@]);
        Ok(pool)
    }

    /// The inodes after `count` references to an inode are given back: the
    /// inode is gone unless it holds more references than that.
    pub open spec fn freed(inodes: Map<Seq<char>, Inode>, id: Seq<char>, count: u64) -> Map<
        Seq<char>,
        Inode,
    > {
        if count < inodes[id].ref_count {
            inodes.insert(id, Inode { ref_count: (inodes[id].ref_count - count) as u64, ..inodes[id] })
        } else {
            inodes.remove(id)
        }
    }

    /// Gives back `count` references to the inode under the key `key`; `None`
    /// if the key is not in use. An inode that held no more references than
    /// that is gone afterwards: its id leaves the pool first, then its key
    /// is free. The count never goes below zero.
    pub fn free_key(&mut self, key: usize, count: u64) -> (res: Option<()>)
        requires
            old(self).wf(),
        ensures
            final(self).wf(),
            final(self).shift() == old(self).shift(),
            final(self).ttl() == old(self).ttl(),
            res is Some == old(self).keys().dom().contains(key),
            res is None ==> final(self).inodes() == old(self).inodes()
                && final(self).keys() == old(self).keys(),
            res is Some ==> ({
                let id = old(self).keys()[key];
                &&& final(self).inodes() == Self::freed(old(self).inodes(), id, count)
                &&& final(self).keys() == if count < old(self).inodes()[id].ref_count {
                    old(self).keys()
                } else {
                    old(self).keys().remove(key)
                }
            }),
    {
        let item_id = match key_table_get(&self.pool, key) {
            Some(id) => id,
            None => {
                return None;
            },
        };
        let inode: Inode = match self.rev_map.get(item_id.as_str()) {
            Some(inode) => *inode,
            None => {
                return None;
            },
        };
        if count < inode.ref_count {
            self.rev_map.insert(item_id, Inode { ref_count: inode.ref_count - count, ..inode });
            assert forall|k: usize| #[trigger]
                self.keys().dom().contains(k) implies self.inodes().dom().contains(self.keys()[k])
                && self.inodes()[self.keys()[k]].key == k by {
                assert(old(self).keys().dom().contains(k));
            }
            assert forall|id: Seq<char>| #[trigger]
                self.inodes().dom().contains(id) implies self.keys().dom().contains(
                self.inodes()[id].key,
            ) && self.keys()[self.inodes()[id].key] == id && self.inodes()[id].ref_count >= 1 by {
                if id != item_id@ {
                    assert(old(self).inodes().dom().contains(id));
                }
            }
        } else {
            self.rev_map.remove(item_id.as_str());
            key_table_remove(&mut self.pool, key);
            assert forall|k: usize| #[trigger]
                self.keys().dom().contains(k) implies self.inodes().dom().contains(self.keys()[k])
                && self.inodes()[self.keys()[k]].key == k by {
                assert(old(self).keys().dom().contains(k));
            }
            assert forall|id: Seq<char>| #[trigger]
                self.inodes().dom().contains(id) implies self.keys().dom().contains(
                self.inodes()[id].key,
            ) && self.keys()[self.inodes()[id].key] == id && self.inodes()[id].ref_count >= 1 by {
                assert(old(self).inodes().dom().contains(id));
            }
        }
        Some(())
    }

    /// The inode number of an item, without keeping a reference to it: a
    /// reference is taken and given back at once. A known item stays as it
    /// is; a new item gets a key and loses it again, so that its number is
    /// not live afterwards. Fails with `PoolFull` if the reference cannot be
    /// taken.
    pub fn touch(&mut self, item_id: String) -> (res: Result<u64, Error>)
        requires
            old(self).wf(),
        ensures
            final(self).wf(),
            final(self).shift() == old(self).shift(),
            final(self).ttl() == old(self).ttl(),
            final(self).inodes() == old(self).inodes(),
            final(self).keys() == old(self).keys(),
            old(self).can_count(item_id@) ==> res == Ok::<u64, Error>(
                ino_of(old(self).inodes()[item_id@].key, old(self).shift()),
            ),
            old(self).inodes().dom().contains(item_id@) && !old(self).can_count(item_id@) ==> res
                == Err::<u64, Error>(Error::PoolFull),
            res matches Ok(ino) ==> (old(self).inodes().dom().contains(item_id@) ==> ino == ino_of(
                old(self).inodes()[item_id@].key,
                old(self).shift(),
            ) && old(self).item(ino) == Some(item_id@)),
            res matches Ok(ino) ==> (!old(self).inodes().dom().contains(item_id@)
                ==> old(self).item(ino)
                is None),
            res matches Err(e) ==> e == Error::PoolFull,
    {
        let key = match self.acquire_or_alloc(item_id) {
            Ok(key) => key,
            Err(e) => {
                return Err(e);
            },
        };
        let ghost mid = self.inodes();
        assert(self.keys()[key] == item_id@);
        self.free_key(key, 1);
        proof {
            if old(self).inodes().dom().contains(item_id@) {
                assert(mid[item_id@].ref_count == old(self).inodes()[item_id@].ref_count + 1);
                assert(old(self).keys().dom().contains(key));
                assert(old(self).keys()[key] == item_id@);
            }
            assert(self.inodes() =~= old(self).inodes());
            assert(self.keys() =~= old(self).keys());
        }
        Ok(self.key_to_ino(key))
    }

    /// The first step of a lookup of the child `child_name` of the inode
    /// `parent_ino`: the id of the parent, under which the child is to be
    /// fetched from the remote side. A parent that is not live is refused
    /// with `InvalidInode`, and a name that cannot be one with
    /// `InvalidFileName`.
    pub fn lookup(&self, parent_ino: u64, child_name: &str) -> (res: Result<String, Error>)
        requires
            self.wf(),
        ensures
            match self.item(parent_ino) {
                None => res == Err::<String, Error>(Error::InvalidInode(parent_ino)),
                Some(id) => if is_valid_file_name(child_name@) {
                    res matches Ok(parent) && parent@ == id
                } else {
                    res matches Err(Error::InvalidFileName(n)) && n@ == child_name@
                },
            },
    {
        let parent = match self.get_item_id(parent_ino) {
            Ok(id) => id,
            Err(e) => {
                return Err(e);
            },
        };
        match cvt_filename(child_name) {
            Ok(()) => Ok(parent),
            Err(e) => Err(e),
        }
    }

    /// The second step of a lookup: the child was fetched at `now`, has the
    /// id `item_id` and the attributes `attr`. A reference to the child is
    /// taken, the attributes are kept as fetched at `now`, and the inode
    /// number of the child is returned with the attributes and the time for
    /// which they are good. Fails with `PoolFull`, and changes nothing, if
    /// the reference cannot be taken.
    pub fn lookup_fetched(&mut self, item_id: String, attr: InodeAttr, now: u64) -> (res: Result<
        (u64, InodeAttr, u64),
        Error,
    >)
        requires
            old(self).wf(),
        ensures
            final(self).wf(),
            final(self).shift() == old(self).shift(),
            final(self).ttl() == old(self).ttl(),
            old(self).can_count(item_id@) ==> res == Ok::<(u64, InodeAttr, u64), Error>(
                (ino_of(old(self).inodes()[item_id@].key, old(self).shift()), attr, old(self).ttl()),
            ),
            old(self).inodes().dom().contains(item_id@) && !old(self).can_count(item_id@) ==> res
                == Err::<(u64, InodeAttr, u64), Error>(Error::PoolFull),
            match res {
                Ok((ino, got, ttl)) => {
                    &&& got == attr
                    &&& ttl == old(self).ttl()
                    &&& final(self).item(ino) == Some(item_id@)
                    &&& final(self).inodes().dom() == old(self).inodes().dom().insert(item_id@)
                    &&& forall|id: Seq<char>|
                        id != item_id@
                            && old(self).inodes().dom().contains(id)
                            ==> final(self).inodes()[id] == #[trigger] old(self).inodes()[id]
                    &&& final(self).inodes()[item_id@].attr_cache == Some((attr, now))
                    &&& final(self).inodes()[item_id@].ref_count
                        == if old(self).inodes().dom().contains(
                        item_id@,
                    ) {
                        old(self).inodes()[item_id@].ref_count + 1
                    } else {
                        1
                    }
                    &&& old(self).inodes().dom().contains(item_id@)
                        ==> final(self).inodes()[item_id@].key
                        == old(self).inodes()[item_id@].key
                    &&& !old(self).inodes().dom().contains(item_id@) ==> old(self).item(ino) is None
                },
                Err(e) => e == Error::PoolFull && final(self).inodes() == old(self).inodes()
                    && final(self).keys() == old(self).keys(),
            },
    {
        let id = item_id.clone();
        let key = match self.acquire_or_alloc(item_id) {
            Ok(key) => key,
            Err(e) => {
                return Err(e);
            },
        };
        let ghost mid = self.inodes();
        let inode: Inode = match self.rev_map.get(id.as_str()) {
            Some(inode) => *inode,
            None => Inode { key, ref_count: 1, attr_cache: None },
        };
        self.rev_map.insert(id, Inode { attr_cache: Some((attr, now)), ..inode });
        proof {
            assert forall|k: usize| #[trigger]
                self.keys().dom().contains(k) implies self.inodes().dom().contains(self.keys()[k])
                && self.inodes()[self.keys()[k]].key == k by {
                assert(mid.dom().contains(self.keys()[k]));
            }
            assert forall|other: Seq<char>| #[trigger]
                self.inodes().dom().contains(other) implies self.keys().dom().contains(
                self.inodes()[other].key,
            ) && self.keys()[self.inodes()[other].key] == other && self.inodes()[other].ref_count
                >= 1 by {
                assert(mid.dom().contains(other));
            }
            assert(self.inodes().dom() =~= old(self).inodes().dom().insert(item_id@));
        }
        let ino = self.key_to_ino(key);
        Ok((ino, attr, self.config.attr_cache_ttl))
    }

    /// Gives back `count` references to an inode. An inode that held no more
    /// than that is gone afterwards: its number and its key are free. A
    /// number that is not live is refused with `InvalidInode`.
    pub fn free(&mut self, ino: u64, count: u64) -> (res: Result<(), Error>)
        requires
            old(self).wf(),
        ensures
            final(self).wf(),
            final(self).shift() == old(self).shift(),
            final(self).ttl() == old(self).ttl(),
            match old(self).item(ino) {
                Some(id) => {
                    &&& res is Ok
                    &&& final(self).inodes() == Self::freed(old(self).inodes(), id, count)
                    &&& final(self).item(ino) is Some == (count < old(self).inodes()[id].ref_count)
                },
                None => res == Err::<(), Error>(Error::InvalidInode(ino))
                    && final(self).inodes() == old(self).inodes()
                    && final(self).keys() == old(self).keys(),
            },
    {
        let key = match self.ino_to_key(ino) {
            Some(key) => key,
            None => {
                return Err(Error::InvalidInode(ino));
            },
        };
        match self.free_key(key, count) {
            Some(()) => Ok(()),
            None => Err(Error::InvalidInode(ino)),
        }
    }

    /// How the attributes of an inode are to be had at the time `now`.
    pub open spec fn attr_outcome(&self, ino: u64, now: u64) -> Option<(InodeAttr, u64)> {
        match self.item(ino) {
            Some(id) => match self.inodes()[id].attr_cache {
                Some((attr, fetched_at)) => match ttl_left(self.ttl(), fetched_at, now) {
                    Some(ttl) => Some((attr, ttl)),
                    None => None,
                },
                None => None,
            },
            None => None,
        }
    }

    /// Decides how the attributes of an inode are to be had at the time
    /// `now`. Attributes that were fetched less than the configured time ago
    /// are served from the pool, with the time for which they are still
    /// good. Otherwise they are to be fetched for the item of the inode. A
    /// number that is not live is refused with `InvalidInode`.
    pub fn get_attr(&self, ino: u64, now: u64) -> (res: Result<AttrStep, Error>)
        requires
            self.wf(),
        ensures
            match self.item(ino) {
                None => res == Err::<AttrStep, Error>(Error::InvalidInode(ino)),
                Some(id) => match self.attr_outcome(ino, now) {
                    Some((attr, ttl)) => res == Ok::<AttrStep, Error>(AttrStep::Cached { attr, ttl }),
                    None => res matches Ok(AttrStep::Fetch { item_id }) && item_id@ == id,
                },
            },
    {
        let item_id = match self.get_item_id(ino) {
            Ok(id) => id,
            Err(e) => {
                return Err(e);
            },
        };
        let cached = match self.rev_map.get(item_id.as_str()) {
            Some(inode) => inode.attr_cache,
            None => None,
        };
        match cached {
            Some((attr, fetched_at)) => {
                let elapsed: u64 = now.saturating_sub(fetched_at);
                if elapsed < self.config.attr_cache_ttl {
                    return Ok(AttrStep::Cached { attr, ttl: self.config.attr_cache_ttl - elapsed });
                }
            },
            None => {},
        }
        Ok(AttrStep::Fetch { item_id })
    }

    /// Keeps the attributes `attr` that were fetched at `now` for an inode,
    /// and returns them with the time for which they are good. A number that
    /// is not live is refused with `InvalidInode`.
    pub fn attr_fetched(&mut self, ino: u64, attr: InodeAttr, now: u64) -> (res: Result<
        (InodeAttr, u64),
        Error,
    >)
        requires
            old(self).wf(),
        ensures
            final(self).wf(),
            final(self).shift() == old(self).shift(),
            final(self).ttl() == old(self).ttl(),
            final(self).keys() == old(self).keys(),
            match old(self).item(ino) {
                Some(id) => res == Ok::<(InodeAttr, u64), Error>((attr, old(self).ttl()))
                    && final(self).inodes() == old(self).inodes().insert(
                    id,
                    Inode { attr_cache: Some((attr, now)), ..old(self).inodes()[id] },
                ),
                None => res == Err::<(InodeAttr, u64), Error>(Error::InvalidInode(ino))
                    && final(self).inodes() == old(self).inodes(),
            },
    {
        let item_id = match self.get_item_id(ino) {
            Ok(id) => id,
            Err(e) => {
                return Err(e);
            },
        };
        let inode: Inode = match self.rev_map.get(item_id.as_str()) {
            Some(inode) => *inode,
            None => {
                return Err(Error::InvalidInode(ino));
            },
        };
        self.rev_map.insert(item_id, Inode { attr_cache: Some((attr, now)), ..inode });
        proof {
            assert forall|k: usize| #[trigger]
                self.keys().dom().contains(k) implies self.inodes().dom().contains(self.keys()[k])
                && self.inodes()[self.keys()[k]].key == k by {
                assert(old(self).inodes().dom().contains(self.keys()[k]));
            }
            assert forall|other: Seq<char>| #[trigger]
                self.inodes().dom().contains(other) implies self.keys().dom().contains(
                self.inodes()[other].key,
            ) && self.keys()[self.inodes()[other].key] == other && self.inodes()[other].ref_count
                >= 1 by {
                assert(old(self).inodes().dom().contains(other));
            }
        }
        Ok((attr, self.config.attr_cache_ttl))
    }

    /// The id of the item of an inode. A number that is not live is refused
    /// with `InvalidInode`.
    pub fn get_item_id(&self, ino: u64) -> (res: Result<String, Error>)
        ensures
            match self.item(ino) {
                Some(id) => res matches Ok(got) && got@ == id,
                None => res == Err::<String, Error>(Error::InvalidInode(ino)),
            },
    {
        let key = match self.ino_to_key(ino) {
            Some(key) => key,
            None => {
                return Err(Error::InvalidInode(ino));
            },
        };
        match key_table_get(&self.pool, key) {
            Some(id) => Ok(id),
            None => Err(Error::InvalidInode(ino)),
        }
    }

    /// How many references the filesystem holds to an inode; `None` for a
    /// number that is not live.
    pub fn ref_count(&self, ino: u64) -> (count: Option<u64>)
        requires
            self.wf(),
        ensures
            count == match self.item(ino) {
                Some(id) => Some(self.inodes()[id].ref_count),
                None => None,
            },
            count matches Some(n) ==> n >= 1,
    {
        let item_id = match self.get_item_id(ino) {
            Ok(id) => id,
            Err(_) => {
                return None;
            },
        };
        match self.rev_map.get(item_id.as_str()) {
            Some(inode) => Some(inode.ref_count),
            None => None,
        }
    }
}

} // verus!
