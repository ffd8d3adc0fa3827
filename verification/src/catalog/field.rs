//! Reading one field, and naming it when it is wrong.
//!
//! The readers know where a value lives and who to blame for it; the
//! converters know what a value must look like and say so in one phrase.
//! Problems are pushed onto a shared list rather than returned, which is why
//! the readers yield `Option`: `None` means "already reported", never "stop
//! reading".

use vstd::prelude::*;

use super::document::{item_at, Item, Table};
use super::flags::Flags;
use super::path::{refusal, RelativePath};
use super::{residency_named, Residency};
use crate::text::{chars_of, push_string, same, signed_decimal, signed_string, strings};

verus! {

/// One problem, phrased the same way every time.
pub open spec fn problem(scope: Seq<char>, field: Seq<char>, complaint: Seq<char>) -> Seq<char> {
    scope + ": field '"@ + field + "' "@ + complaint
}

/// One problem, phrased the same way every time.
pub fn problem_text(scope: &str, field: &str, complaint: &str) -> (r: String)
    ensures
        r@ == problem(scope@, field@, complaint@),
{
    let mut s = String::from_str(scope);
    s.append(": field '");
    s.append(field);
    s.append("' ");
    s.append(complaint);
    s
}

/// The fields of a table the schema does not define, each named.
pub open spec fn unknown_problems(
    entries: Seq<(String, Item)>,
    known: Seq<Seq<char>>,
    scope: Seq<char>,
) -> Seq<Seq<char>>
    decreases entries.len(),
{
    if entries.len() == 0 {
        Seq::empty()
    } else {
        unknown_problems(entries.drop_last(), known, scope) + if known.contains(
            entries.last().0@,
        ) {
            Seq::<Seq<char>>::empty()
        } else {
            seq![problem(scope, entries.last().0@, "is not recognised"@)]
        }
    }
}

/// The texts of a list of names.
pub open spec fn names_of(known: Seq<&str>) -> Seq<Seq<char>> {
    known.map_values(|s: &str| s@)
}

/// Whether a name is among these.
fn among(known: &Vec<&str>, key: &str) -> (b: bool)
    ensures
        b == names_of(known@).contains(key@),
{
    let k = chars_of(key);
    let mut i: usize = 0;
    while i < known.len()
        invariant
            i <= known.len(),
            k@ == key@,
            forall|j: int| 0 <= j < i ==> names_of(known@)[j] != key@,
        decreases known.len() - i,
    {
        if same(&chars_of(known[i]), &k) {
            assert(names_of(known@)[i as int] == key@);
            return true;
        }
        i += 1;
    }
    false
}

/// Names any field the schema does not define. A misspelled setting that
/// parsed silently would be a setting that never applied.
pub fn report_unknown(table: &Table, known: &Vec<&str>, scope: &str, problems: &mut Vec<String>)
    ensures
        strings(final(problems)@) == strings(old(problems)@) + unknown_problems(
            table.entries@,
            names_of(known@),
            scope@,
        ),
{
    let ghost start = strings(problems@);
    let mut i: usize = 0;
    assert(table.entries@.subrange(0, 0) =~= Seq::<(String, Item)>::empty());
    assert(start + Seq::<Seq<char>>::empty() =~= start);
    while i < table.entries.len()
        invariant
            i <= table.entries.len(),
            strings(problems@) == start + unknown_problems(
                table.entries@.subrange(0, i as int),
                names_of(known@),
                scope@,
            ),
        decreases table.entries.len() - i,
    {
        assert(table.entries@.subrange(0, i + 1).drop_last() =~= table.entries@.subrange(
            0,
            i as int,
        ));
        let key = table.entries[i].0.as_str();
        let ghost was = strings(problems@);
        if !among(known, key) {
            push_string(problems, problem_text(scope, key, "is not recognised"));
            assert(strings(problems@) =~= was + seq![
                problem(scope@, key@, "is not recognised"@),
            ]);
        } else {
            assert(was + Seq::<Seq<char>>::empty() =~= was);
        }
        assert(strings(problems@) =~= start + unknown_problems(
            table.entries@.subrange(0, i + 1),
            names_of(known@),
            scope@,
        ));
        i += 1;
    }
    assert(table.entries@.subrange(0, table.entries.len() as int) =~= table.entries@);
}

/// A nested table, or why there is none: absent is `Ok(None)`, and a value
/// that is not a table is a problem.
pub open spec fn table_of(t: Table, field: Seq<char>) -> Result<Option<Table>, Seq<char>> {
    match item_at(t, field) {
        None => Ok(None),
        Some(Item::Table(inner)) => Ok(Some(inner)),
        Some(_) => Err("must be a table"@),
    }
}

/// What a reading leaves: the value, if one was read.
pub open spec fn value_of<V>(r: Result<Option<V>, Seq<char>>) -> Option<V> {
    match r {
        Ok(v) => v,
        Err(_) => None,
    }
}

/// What a reading complains of, as problems.
pub open spec fn complaints<V>(r: Result<Option<V>, Seq<char>>, scope: Seq<char>, field: Seq<char>) -> Seq<Seq<char>> {
    match r {
        Ok(_) => Seq::empty(),
        Err(c) => seq![problem(scope, field, c)],
    }
}

/// Records a complaint about a field.
fn complain(problems: &mut Vec<String>, scope: &str, field: &str, complaint: &str)
    ensures
        strings(final(problems)@) == strings(old(problems)@) + seq![
            problem(scope@, field@, complaint@),
        ],
{
    let ghost was = strings(problems@);
    push_string(problems, problem_text(scope, field, complaint));
    assert(strings(problems@) =~= was + seq![problem(scope@, field@, complaint@)]);
}

/// A nested table. Absent and malformed are different: only the second is a
/// problem, and the caller decides what absence means.
pub fn table_at<'a>(table: &'a Table, scope: &str, field: &str, problems: &mut Vec<String>) -> (r: Option<&'a Table>)
    ensures
        match r {
            Some(t) => table_of(*table, field@) == Ok::<Option<Table>, Seq<char>>(Some(*t)),
            None => value_of(table_of(*table, field@)) is None,
        },
        strings(final(problems)@) == strings(old(problems)@) + complaints(
            table_of(*table, field@),
            scope@,
            field@,
        ),
{
    let ghost was = strings(problems@);
    match table.get(field) {
        None => {
            assert(was + Seq::<Seq<char>>::empty() =~= was);
            None
        },
        Some(Item::Table(inner)) => {
            assert(was + Seq::<Seq<char>>::empty() =~= was);
            Some(inner)
        },
        Some(_) => {
            complain(problems, scope, field, "must be a table");
            None
        },
    }
}

/// A string, or the complaint that it is not one.
pub open spec fn text_of(item: Item) -> Result<Seq<char>, Seq<char>> {
    match item {
        Item::Text(s) => Ok(s@),
        _ => Err("must be a string"@),
    }
}

/// A whole number greater than zero that fits 32 bits, or the complaint.
/// Zero is refused rather than defaulted: a context of no tokens, or a model
/// that costs no memory, are both claims the router would have to disbelieve
/// later.
pub open spec fn positive_of(item: Item) -> Result<u32, Seq<char>> {
    match item {
        Item::Integer(n) => if 0 < n <= u32::MAX {
            Ok(n as u32)
        } else {
            Err("must be greater than zero, but is "@ + signed_decimal(n as int))
        },
        _ => Err("must be a whole number"@),
    }
}

/// A residency, or the complaint naming the two there are.
pub open spec fn residency_of(item: Item) -> Result<Residency, Seq<char>> {
    match text_of(item) {
        Err(c) => Err(c),
        Ok(t) => match residency_named(t) {
            Some(r) => Ok(r),
            None => Err("must be one of resident or on-demand, but is '"@ + t + "'"@),
        },
    }
}

/// A location inside the models root, or why it is refused.
pub open spec fn location_of(item: Item) -> Result<Seq<char>, Seq<char>> {
    match text_of(item) {
        Err(c) => Err(c),
        Ok(t) => match refusal(t) {
            Some(why) => Err(why),
            None => Ok(t),
        },
    }
}

/// A runtime's name: a name, never a path.
pub open spec fn runtime_name_of(item: Item) -> Result<Seq<char>, Seq<char>> {
    match text_of(item) {
        Err(c) => Err(c),
        Ok(t) => if t.len() == 0 {
            Err("must not be empty"@)
        } else if t.contains('/') || t.contains('\\') {
            Err("must name a runtime rather than a path, but is '"@ + t + "'"@)
        } else {
            Ok(t)
        },
    }
}

/// What a converter makes of a field a table may omit.
pub open spec fn reading<V>(t: Table, field: Seq<char>, conv: spec_fn(Item) -> Result<V, Seq<char>>) -> Result<Option<V>, Seq<char>> {
    match item_at(t, field) {
        None => Ok(None),
        Some(item) => match conv(item) {
            Ok(v) => Ok(Some(v)),
            Err(c) => Err(c),
        },
    }
}

/// The text an optional string holds.
pub open spec fn text_option(o: Option<String>) -> Option<Seq<char>> {
    match o {
        Some(s) => Some(s@),
        None => None,
    }
}

/// The text an optional location holds.
pub open spec fn path_option(o: Option<RelativePath>) -> Option<Seq<char>> {
    match o {
        Some(p) => Some(p@),
        None => None,
    }
}

/// A string field, read.
pub open spec fn text_reading(t: Table, field: Seq<char>) -> Result<Option<Seq<char>>, Seq<char>> {
    reading(t, field, |i: Item| text_of(i))
}

/// A positive whole number, read.
pub open spec fn positive_reading(t: Table, field: Seq<char>) -> Result<Option<u32>, Seq<char>> {
    reading(t, field, |i: Item| positive_of(i))
}

/// A residency, read.
pub open spec fn residency_reading(t: Table, field: Seq<char>) -> Result<Option<Residency>, Seq<char>> {
    reading(t, field, |i: Item| residency_of(i))
}

/// A location, read.
pub open spec fn location_reading(t: Table, field: Seq<char>) -> Result<Option<Seq<char>>, Seq<char>> {
    reading(t, field, |i: Item| location_of(i))
}

/// A runtime's name, read.
pub open spec fn runtime_reading(t: Table, field: Seq<char>) -> Result<Option<Seq<char>>, Seq<char>> {
    reading(t, field, |i: Item| runtime_name_of(i))
}

/// Whether a character is in a text.
fn has(v: &Vec<char>, c: char) -> (b: bool)
    ensures
        b == v@.contains(c),
{
    let mut i: usize = 0;
    while i < v.len()
        invariant
            i <= v.len(),
            forall|j: int| 0 <= j < i ==> v@[j] != c,
        decreases v.len() - i,
    {
        if v[i] == c {
            assert(v@[i as int] == c);
            return true;
        }
        i += 1;
    }
    false
}

/// A string field the table may omit.
pub fn optional_text(table: &Table, scope: &str, field: &str, problems: &mut Vec<String>) -> (r: Option<String>)
    ensures
        text_option(r) == value_of(text_reading(*table, field@)),
        strings(final(problems)@) == strings(old(problems)@) + complaints(
            text_reading(*table, field@),
            scope@,
            field@,
        ),
{
    let ghost was = strings(problems@);
    match table.get(field) {
        None => {
            assert(was + Seq::<Seq<char>>::empty() =~= was);
            None
        },
        Some(Item::Text(s)) => {
            assert(was + Seq::<Seq<char>>::empty() =~= was);
            Some(s.clone())
        },
        Some(_) => {
            complain(problems, scope, field, "must be a string");
            None
        },
    }
}

/// A positive whole number the table may omit.
pub fn optional_positive(table: &Table, scope: &str, field: &str, problems: &mut Vec<String>) -> (r: Option<u32>)
    ensures
        r == value_of(positive_reading(*table, field@)),
        strings(final(problems)@) == strings(old(problems)@) + complaints(
            positive_reading(*table, field@),
            scope@,
            field@,
        ),
{
    let ghost was = strings(problems@);
    match table.get(field) {
        None => {
            assert(was + Seq::<Seq<char>>::empty() =~= was);
            None
        },
        Some(Item::Integer(n)) => {
            if 0 < *n && *n <= 0xffff_ffffi64 {
                assert(was + Seq::<Seq<char>>::empty() =~= was);
                Some(*n as u32)
            } else {
                let mut c = String::from_str("must be greater than zero, but is ");
                c.append(signed_string(*n).as_str());
                complain(problems, scope, field, c.as_str());
                None
            }
        },
        Some(_) => {
            complain(problems, scope, field, "must be a whole number");
            None
        },
    }
}

/// A residency the table may omit.
pub fn optional_residency(table: &Table, scope: &str, field: &str, problems: &mut Vec<String>) -> (r: Option<Residency>)
    ensures
        r == value_of(residency_reading(*table, field@)),
        strings(final(problems)@) == strings(old(problems)@) + complaints(
            residency_reading(*table, field@),
            scope@,
            field@,
        ),
{
    let ghost was = strings(problems@);
    match table.get(field) {
        None => {
            assert(was + Seq::<Seq<char>>::empty() =~= was);
            None
        },
        Some(Item::Text(s)) => match Residency::parse(s.as_str()) {
            Some(r) => {
                assert(was + Seq::<Seq<char>>::empty() =~= was);
                Some(r)
            },
            None => {
                let mut c = String::from_str("must be one of resident or on-demand, but is '");
                c.append(s.as_str());
                c.append("'");
                complain(problems, scope, field, c.as_str());
                None
            },
        },
        Some(_) => {
            complain(problems, scope, field, "must be a string");
            None
        },
    }
}

/// A location the table may omit.
pub fn optional_location(table: &Table, scope: &str, field: &str, problems: &mut Vec<String>) -> (r: Option<RelativePath>)
    ensures
        path_option(r) == value_of(location_reading(*table, field@)),
        match r {
            Some(p) => p.well_formed(),
            None => true,
        },
        strings(final(problems)@) == strings(old(problems)@) + complaints(
            location_reading(*table, field@),
            scope@,
            field@,
        ),
{
    let ghost was = strings(problems@);
    match table.get(field) {
        None => {
            assert(was + Seq::<Seq<char>>::empty() =~= was);
            None
        },
        Some(Item::Text(s)) => match RelativePath::new(s.as_str()) {
            Ok(p) => {
                assert(was + Seq::<Seq<char>>::empty() =~= was);
                Some(p)
            },
            Err(why) => {
                complain(problems, scope, field, why.as_str());
                None
            },
        },
        Some(_) => {
            complain(problems, scope, field, "must be a string");
            None
        },
    }
}

/// A runtime's name the table may omit.
pub fn optional_runtime(table: &Table, scope: &str, field: &str, problems: &mut Vec<String>) -> (r: Option<String>)
    ensures
        text_option(r) == value_of(runtime_reading(*table, field@)),
        strings(final(problems)@) == strings(old(problems)@) + complaints(
            runtime_reading(*table, field@),
            scope@,
            field@,
        ),
{
    let ghost was = strings(problems@);
    match table.get(field) {
        None => {
            assert(was + Seq::<Seq<char>>::empty() =~= was);
            None
        },
        Some(Item::Text(s)) => {
            let v = chars_of(s.as_str());
            if v.len() == 0 {
                complain(problems, scope, field, "must not be empty");
                None
            } else if has(&v, '/') || has(&v, '\\') {
                let mut c = String::from_str("must name a runtime rather than a path, but is '");
                c.append(s.as_str());
                c.append("'");
                complain(problems, scope, field, c.as_str());
                None
            } else {
                assert(was + Seq::<Seq<char>>::empty() =~= was);
                Some(s.clone())
            }
        },
        Some(_) => {
            complain(problems, scope, field, "must be a string");
            None
        },
    }
}

/// The server settings a table's `flags` carries: each one that is a
/// string, and a problem for each that is not.
pub open spec fn flag_problems(entries: Seq<(String, Item)>, scope: Seq<char>) -> Seq<Seq<char>>
    decreases entries.len(),
{
    if entries.len() == 0 {
        Seq::empty()
    } else {
        flag_problems(entries.drop_last(), scope) + match entries.last().1 {
            Item::Text(_) => Seq::<Seq<char>>::empty(),
            _ => seq![
                problem(
                    scope,
                    "flags"@,
                    "carries '"@ + entries.last().0@ + "', which must be a string"@,
                ),
            ],
        }
    }
}

/// The value the last string entry under a key gives it, if any does.
pub open spec fn flag_value(entries: Seq<(String, Item)>, key: Seq<char>) -> Option<Seq<char>>
    decreases entries.len(),
{
    if entries.len() == 0 {
        None
    } else if entries.last().0@ == key && entries.last().1 is Text {
        Some(entries.last().1->Text_0@)
    } else {
        flag_value(entries.drop_last(), key)
    }
}

/// What a table's `flags` gives each name, and what it complains of.
pub open spec fn flags_value(t: Table, key: Seq<char>) -> Option<Seq<char>> {
    match table_of(t, "flags"@) {
        Ok(Some(inner)) => flag_value(inner.entries@, key),
        _ => None,
    }
}

/// What reading a table's `flags` complains of.
pub open spec fn flags_problems(t: Table, scope: Seq<char>) -> Seq<Seq<char>> {
    match table_of(t, "flags"@) {
        Ok(Some(inner)) => flag_problems(inner.entries@, scope),
        Ok(None) => Seq::empty(),
        Err(c) => seq![problem(scope, "flags"@, c)],
    }
}

/// Server settings passed through untouched. Their meaning belongs to the
/// server, and this router does not pretend to know it: the shape is checked,
/// the content is not.
pub fn flags(table: &Table, scope: &str, problems: &mut Vec<String>) -> (r: Flags)
    ensures
        r.well_formed(),
        forall|k: Seq<char>| #[trigger] r.value_of(k) == flags_value(*table, k),
        strings(final(problems)@) == strings(old(problems)@) + flags_problems(*table, scope@),
{
    let mut out = Flags::new();
    let inner = match table_at(table, scope, "flags", problems) {
        Some(t) => t,
        None => {
            return out;
        },
    };
    let ghost start = strings(problems@);
    let mut i: usize = 0;
    assert(inner.entries@.subrange(0, 0) =~= Seq::<(String, Item)>::empty());
    assert(start + Seq::<Seq<char>>::empty() =~= start);
    while i < inner.entries.len()
        invariant
            i <= inner.entries.len(),
            out.well_formed(),
            forall|k: Seq<char>| #[trigger]
                out.value_of(k) == flag_value(inner.entries@.subrange(0, i as int), k),
            strings(problems@) == start + flag_problems(
                inner.entries@.subrange(0, i as int),
                scope@,
            ),
        decreases inner.entries.len() - i,
    {
        let ghost prefix = inner.entries@.subrange(0, i + 1);
        assert(prefix.drop_last() =~= inner.entries@.subrange(0, i as int));
        assert(prefix.last() == inner.entries@[i as int]);
        let ghost was = strings(problems@);
        match &inner.entries[i].1 {
            Item::Text(text) => {
                out.insert(inner.entries[i].0.clone(), text.clone());
                assert(was + Seq::<Seq<char>>::empty() =~= was);
            },
            _ => {
                let mut c = String::from_str("carries '");
                c.append(inner.entries[i].0.as_str());
                c.append("', which must be a string");
                complain(problems, scope, "flags", c.as_str());
            },
        }
        assert(strings(problems@) =~= start + flag_problems(prefix, scope@));
        i += 1;
    }
    assert(inner.entries@.subrange(0, inner.entries.len() as int) =~= inner.entries@);
    out
}

} // verus!
