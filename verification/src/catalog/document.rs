//! A catalog as its text was written: tables of named values.
//!
//! The catalog is TOML, and what its reader looks at is only this much of
//! it: which keys a table carries, in key order (see [`keys_ascending`],
//! which is how the program builds a table), and whether each value is a
//! string, a whole number, a table, or something else. The program turns the
//! text into one of these with the `toml` crate; everything the catalog
//! decides from it is decided here.

use vstd::prelude::*;

use super::flags::text_before;
use crate::text::{chars_of, same};

verus! {

/// One value of a table.
#[derive(Debug)]
pub enum Item {
    /// A string.
    Text(String),
    /// A whole number.
    Integer(i64),
    /// A table of its own.
    Table(Table),
    /// Anything else: a float, a boolean, a date, an array.
    Other,
}

/// A table: its keys and their values, in key order.
#[derive(Debug)]
pub struct Table {
    pub entries: Vec<(String, Item)>,
}

/// The value the first entry with this key holds, if any does.
pub open spec fn find(entries: Seq<(String, Item)>, key: Seq<char>) -> Option<Item>
    decreases entries.len(),
{
    if entries.len() == 0 {
        None
    } else if entries[0].0@ == key {
        Some(entries[0].1)
    } else {
        find(entries.drop_first(), key)
    }
}

/// The value a table holds under a key, if it holds one.
/// Whether keys come strictly in order, so each appears once: how a TOML
/// table is read.
pub open spec fn keys_ascending(entries: Seq<(String, Item)>) -> bool {
    forall|i: int, j: int|
        0 <= i < j < entries.len() ==> text_before(#[trigger] entries[i].0@, #[trigger] entries[j].0@)
}

pub open spec fn item_at(t: Table, key: Seq<char>) -> Option<Item> {
    find(t.entries@, key)
}

impl Table {
    /// A table with nothing in it.
    pub fn empty() -> (t: Self)
        ensures
            t.entries@.len() == 0,
    {
        Table { entries: Vec::new() }
    }

    /// The value this table holds under a key, if it holds one.
    pub fn get(&self, key: &str) -> (r: Option<&Item>)
        ensures
            match r {
                Some(item) => item_at(*self, key@) == Some(*item),
                None => item_at(*self, key@) is None,
            },
    {
        let wanted = chars_of(key);
        let mut i: usize = 0;
        assert(self.entries@.subrange(0, self.entries.len() as int) =~= self.entries@);
        while i < self.entries.len()
            invariant
                i <= self.entries.len(),
                wanted@ == key@,
                find(self.entries@, key@) == find(
                    self.entries@.subrange(i as int, self.entries.len() as int),
                    key@,
                ),
            decreases self.entries.len() - i,
        {
            let ghost rest = self.entries@.subrange(i as int, self.entries.len() as int);
            assert(rest[0] == self.entries@[i as int]);
            assert(rest.drop_first() =~= self.entries@.subrange(
                i + 1,
                self.entries.len() as int,
            ));
            if same(&chars_of(self.entries[i].0.as_str()), &wanted) {
                return Some(&self.entries[i].1);
            }
            i += 1;
        }
        None
    }
}

} // verus!
