//! Catalog text as a document: the `toml` crate parses the text, and each
//! value is carried as text, a whole number, a table, or something else.

use vstd::prelude::*;

use super::document::{find, keys_ascending, Item, Table};

verus! {

/// A TOML value, which the parser hands over and the document is made from.
#[verifier::external_type_specification]
#[verifier::external_body]
pub struct ExTomlValue(toml::Value);

/// What the `toml` crate reads catalog text as: the document, or the
/// parser's complaint in its own words.
pub uninterp spec fn toml_document(text: Seq<char>) -> Result<Table, Seq<char>>;

/// Whether a document's tables keep their keys in order: the document's own
/// keys, and those of every table directly inside it.
pub open spec fn in_key_order(t: Table) -> bool {
    &&& keys_ascending(t.entries@)
    &&& forall|i: int|
        0 <= i < t.entries@.len() ==> ((#[trigger] t.entries@[i]).1 matches Item::Table(inner)
            ==> keys_ascending(inner.entries@))
}

/// `text.parse::<toml::Table>()`: the document the text holds, each value
/// carried as text (`String`), a whole number (`Integer`), a table
/// (`Table`) or something else, or the parser's error in its own words
/// (`Display`). What the parser accepts and says is named, not stated. A
/// `toml::Table` is a `BTreeMap` keyed by `String` (the crate's
/// `preserve_order` feature is off), so each table's keys come once each and
/// in order.
#[verifier::external_body]
pub fn document(text: &str) -> (r: Result<Table, String>)
    ensures
        match r {
            Ok(t) => toml_document(text@) == Ok::<Table, Seq<char>>(t) && in_key_order(t),
            Err(e) => toml_document(text@) == Err::<Table, Seq<char>>(e@),
        },
{
    match text.parse::<toml::Table>() {
        Ok(parsed) => Ok(Table {
            entries: parsed.iter().map(|(key, value)| (key.clone(), item(value))).collect(),
        }),
        Err(error) => Err(error.to_string()),
    }
}

/// One `toml::Value` as a document's item, its variants told apart one arm
/// each; a table's entries in the order the table iterates.
#[verifier::external_body]
fn item(value: &toml::Value) -> Item {
    match value {
        toml::Value::String(text) => Item::Text(text.clone()),
        toml::Value::Integer(number) => Item::Integer(*number),
        toml::Value::Table(inner) => Item::Table(Table {
            entries: inner.iter().map(|(key, value)| (key.clone(), item(value))).collect(),
        }),
        _ => Item::Other,
    }
}

/// The item a key finds is one of the table's own.
pub proof fn lemma_find_within(entries: Seq<(String, Item)>, key: Seq<char>)
    ensures
        find(entries, key) matches Some(item) ==> exists|i: int|
            0 <= i < entries.len() && #[trigger] entries[i].1 == item,
    decreases entries.len(),
{
    if entries.len() > 0 && entries[0].0@ != key {
        lemma_find_within(entries.drop_first(), key);
        if let Some(item) = find(entries, key) {
            let i = choose|i: int| 0 <= i < entries.drop_first().len() && #[trigger] entries.drop_first()[i].1 == item;
            assert(entries[i + 1].1 == item);
        }
    } else if entries.len() > 0 {
        assert(entries[0].1 == find(entries, key)->0);
    }
}

} // verus!
