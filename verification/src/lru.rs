//! The least-recently-used index of the disk cache.
//!
//! The index is an `lru_cache::LruCache` from item ids to slot numbers. What
//! it holds is spoken of as a sequence of entries in the order of their last
//! use, the least recently used first. The contracts of the functions below
//! restate what the source of the `lru-cache` crate does; they are not proved
//! here.

use vstd::prelude::*;
use lru_cache::LruCache;
use std::hash::{BuildHasher, Hash};

verus! {

/// `lru_cache::LruCache`, opaque to the verifier.
#[verifier::external_type_specification]
#[verifier::external_body]
#[verifier::reject_recursive_types(K)]
#[verifier::reject_recursive_types(V)]
#[verifier::reject_recursive_types(S)]
pub struct ExLruCache<K: Eq + Hash, V, S: BuildHasher>(LruCache<K, V, S>);

/// An entry of the index: an item id and the number of its slot.
pub type Entry = (Seq<char>, usize);

/// The entries of an index, the least recently used first.
pub uninterp spec fn lru_entries(cache: LruCache<String, usize>) -> Seq<Entry>;

/// The number of entries that an index was made to hold.
pub uninterp spec fn lru_capacity(cache: LruCache<String, usize>) -> nat;

/// Whether some entry has this key.
pub open spec fn has_key(entries: Seq<Entry>, key: Seq<char>) -> bool {
    exists|i: int| 0 <= i < entries.len() && (#[trigger] entries[i]).0 == key
}

/// The place of an entry with this key, if there is one.
pub open spec fn key_index(entries: Seq<Entry>, key: Seq<char>) -> int {
    choose|i: int| 0 <= i < entries.len() && (#[trigger] entries[i]).0 == key
}

/// The slot number under this key.
pub open spec fn lookup(entries: Seq<Entry>, key: Seq<char>) -> Option<usize> {
    if has_key(entries, key) {
        Some(entries[key_index(entries, key)].1)
    } else {
        None
    }
}

/// The entries without the one under this key.
pub open spec fn without(entries: Seq<Entry>, key: Seq<char>) -> Seq<Entry> {
    if has_key(entries, key) {
        entries.remove(key_index(entries, key))
    } else {
        entries
    }
}

/// The entries after the one under this key was used: it is now the most
/// recently used.
pub open spec fn touched(entries: Seq<Entry>, key: Seq<char>) -> Seq<Entry> {
    if has_key(entries, key) {
        without(entries, key).push(entries[key_index(entries, key)])
    } else {
        entries
    }
}

/// The entries after `key` was set to `value` in an index that holds at most
/// `capacity` entries: the entry is the most recently used, and if the index
/// now holds too many, the least recently used entry is gone.
pub open spec fn inserted(entries: Seq<Entry>, capacity: nat, key: Seq<char>, value: usize) -> Seq<
    Entry,
> {
    let all = without(entries, key).push((key, value));
    if all.len() > capacity {
        all.drop_first()
    } else {
        all
    }
}

/// `LruCache::new`: an empty index for at most `capacity` entries.
#[verifier::external_body]
pub(crate) fn lru_new(capacity: usize) -> (cache: LruCache<String, usize>)
    ensures
        lru_entries(cache) == Seq::<Entry>::empty(),
        lru_capacity(cache) == capacity,
{
    LruCache::new(capacity)
}

/// `LruCache::len`: the number of entries.
#[verifier::external_body]
pub(crate) fn lru_len(cache: &LruCache<String, usize>) -> (n: usize)
    ensures
        n == lru_entries(*cache).len(),
{
    cache.len()
}

/// `LruCache::get_mut`: looks the key up; an entry that is found becomes the
/// most recently used.
#[verifier::external_body]
pub(crate) fn lru_touch(cache: &mut LruCache<String, usize>, key: &str) -> (slot: Option<usize>)
    ensures
        slot == lookup(lru_entries(*old(cache)), key@),
        lru_entries(*final(cache)) == touched(lru_entries(*old(cache)), key@),
        lru_capacity(*final(cache)) == lru_capacity(*old(cache)),
{
    cache.get_mut(key).map(|slot| *slot)
}

/// `LruCache::insert`: sets the key to the value and makes the entry the
/// most recently used; if the index then holds more entries than it was made
/// for, the least recently used one is dropped. Returns the value that the
/// key had before.
#[verifier::external_body]
pub(crate) fn lru_insert(cache: &mut LruCache<String, usize>, key: String, value: usize) -> (before:
    Option<usize>)
    ensures
        before == lookup(lru_entries(*old(cache)), key@),
        lru_entries(*final(cache)) == inserted(
            lru_entries(*old(cache)),
            lru_capacity(*old(cache)),
            key@,
            value,
        ),
        lru_capacity(*final(cache)) == lru_capacity(*old(cache)),
{
    cache.insert(key, value)
}

/// `LruCache::remove`: takes the entry under the key out and returns its
/// value.
#[verifier::external_body]
pub(crate) fn lru_remove(cache: &mut LruCache<String, usize>, key: &str) -> (slot: Option<usize>)
    ensures
        slot == lookup(lru_entries(*old(cache)), key@),
        lru_entries(*final(cache)) == without(lru_entries(*old(cache)), key@),
        lru_capacity(*final(cache)) == lru_capacity(*old(cache)),
{
    cache.remove(key)
}

/// `LruCache::remove_lru`: takes the least recently used entry out and
/// returns it; `None` if the index is empty.
#[verifier::external_body]
pub(crate) fn lru_remove_lru(cache: &mut LruCache<String, usize>) -> (entry: Option<(String, usize)>)
    ensures
        match entry {
            Some((key, slot)) => lru_entries(*old(cache)).len() > 0 && (key@, slot) == lru_entries(
                *old(cache),
            )[0] && lru_entries(*final(cache)) == lru_entries(*old(cache)).drop_first(),
            None => lru_entries(*old(cache)).len() == 0 && lru_entries(*final(cache)) == lru_entries(
                *old(cache),
            ),
        },
        lru_capacity(*final(cache)) == lru_capacity(*old(cache)),
{
    cache.remove_lru()
}

} // verus!
