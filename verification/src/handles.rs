//! The table of open files.
//!
//! The table is a `sharded_slab::Slab`: it stores a value and hands out the
//! key under which the value is found again. What it holds is spoken of as a
//! map from keys to values. The contracts of the functions below restate the
//! documentation of the `sharded-slab` crate for a table that is used by one
//! caller at a time; they are not proved here.

use vstd::prelude::*;
use sharded_slab::Slab;
use crate::file::File;

verus! {

/// A `sharded_slab::Slab` of open files, opaque to the verifier.
#[verifier::external_body]
pub struct HandleTable {
    slab: Slab<File>,
}

/// Open files by their keys.
pub type Handles = Map<usize, File>;

/// The open files of a table by their keys.
pub uninterp spec fn table_entries(table: HandleTable) -> Handles;

/// `Slab::new`: an empty table.
#[verifier::external_body]
pub(crate) fn table_new() -> (table: HandleTable)
    ensures
        table_entries(table) == Handles::empty(),
{
    HandleTable { slab: Slab::new() }
}

/// `Slab::insert`: stores the value under a key that was not in use and
/// returns the key, or stores nothing and returns `None` when the table has
/// no room. (The outside function panics if more threads use slabs at the
/// same time than the crate's configuration allows, 4096 by default.)
#[verifier::external_body]
pub(crate) fn table_insert(table: &mut HandleTable, value: File) -> (key: Option<usize>)
    ensures
        match key {
            Some(k) => !table_entries(*old(table)).dom().contains(k) && table_entries(*final(table))
                == table_entries(*old(table)).insert(k, value),
            None => table_entries(*final(table)) == table_entries(*old(table)),
        },
{
    table.slab.insert(value)
}

/// `Slab::get`: the value under the key, if the key is in use.
#[verifier::external_body]
pub(crate) fn table_get(table: &HandleTable, key: usize) -> (value: Option<File>)
    ensures
        value == if table_entries(*table).dom().contains(key) {
            Some(table_entries(*table)[key])
        } else {
            None
        },
{
    table.slab.get(key).map(|entry| *entry)
}

/// `Slab::remove` on a key that is in use: takes the value under the key out
/// of the table and returns `true`. A key that is not in use is left out,
/// because the outside function may take a key that was given up before for
/// the one that follows it in the same place.
#[verifier::external_body]
pub(crate) fn table_remove(table: &mut HandleTable, key: usize) -> (removed: bool)
    requires
        table_entries(*old(table)).dom().contains(key),
    ensures
        removed,
        table_entries(*final(table)) == table_entries(*old(table)).remove(key),
{
    table.slab.remove(key)
}

} // verus!
