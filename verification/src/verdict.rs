//! What the `check` command says of a catalog: whether it is usable, and the
//! lines that say so.
//!
//! A usable catalog is one line of counts, followed by every note the reading
//! made; notes are not failures, so they never turn a usable catalog into an
//! unusable one. An unusable catalog is one line naming it, followed by every
//! problem, so one run covers one round of edits.

use vstd::prelude::*;

use crate::catalog::resolve::Reading;
use crate::catalog::estimate::Disk;
use crate::catalog::{Catalog, Report};
use crate::text::{decimal, decimal_string, push_string, strings};

verus! {

/// Whether a catalog is usable, and what to say about it, a line each: to
/// the standard output when it is usable, to the error output when not.
pub struct Verdict {
    pub usable: bool,
    pub lines: Vec<String>,
}

/// Each line indented under the one that introduces it.
pub open spec fn indented(lines: Seq<Seq<char>>) -> Seq<Seq<char>> {
    lines.map_values(|l: Seq<char>| "  "@ + l)
}

/// What is said of a catalog that cannot be used: its name, then each
/// problem.
pub open spec fn refusal_lines(catalog: Seq<char>, problems: Seq<Seq<char>>) -> Seq<Seq<char>> {
    seq![catalog + " is not usable:"@] + indented(problems)
}

/// What is said of a catalog read against a models root: how many models it
/// makes, how many it declared and how many were found, then each note.
pub open spec fn reading_lines(
    catalog: Seq<char>,
    total: nat,
    declared: nat,
    discovered: nat,
    notes: Seq<Seq<char>>,
) -> Seq<Seq<char>> {
    seq![
        catalog + " is valid: "@ + decimal(total) + " models, "@ + decimal(declared)
            + " declared and "@ + decimal(discovered) + " found under the root"@,
    ] + indented(notes)
}

/// What is said of a catalog read from its text alone.
pub open spec fn shape_line(catalog: Seq<char>, total: nat) -> Seq<char> {
    catalog + " is valid: "@ + decimal(total)
        + " models (shape only -- no models root on this machine, so nothing was checked against its files)"@
}

/// Appends each line, indented, to what is said.
fn push_indented(lines: &mut Vec<String>, more: &Vec<String>)
    ensures
        strings(final(lines)@) == strings(old(lines)@) + indented(strings(more@)),
{
    let ghost before = strings(lines@);
    let mut i: usize = 0;
    while i < more.len()
        invariant
            i <= more.len(),
            strings(lines@) == before + indented(strings(more@.subrange(0, i as int))),
        decreases more.len() - i,
    {
        let mut line = String::from_str("  ");
        line.append(more[i].as_str());
        let ghost was = strings(lines@);
        push_string(lines, line);
        assert(strings(more@.subrange(0, i + 1)) =~= strings(more@.subrange(0, i as int)).push(
            more@[i as int]@,
        ));
        assert(strings(lines@) =~= before + indented(strings(more@.subrange(0, i + 1))));
        i += 1;
    }
    assert(more@.subrange(0, more.len() as int) =~= more@);
}

/// The verdict on a catalog that cannot be used.
fn refusal(catalog: &str, report: &Report) -> (v: Verdict)
    ensures
        !v.usable,
        strings(v.lines@) == refusal_lines(catalog@, strings(report.problems@)),
{
    let mut first = String::from_str(catalog);
    first.append(" is not usable:");
    let mut lines: Vec<String> = Vec::new();
    push_string(&mut lines, first);
    push_indented(&mut lines, &report.problems);
    Verdict { usable: false, lines }
}

/// The verdict on a catalog read against a models root: usable with its
/// counts and notes, or not with its problems.
pub fn of_reading(catalog: &str, r: &Result<Reading, Report>) -> (v: Verdict)
    requires
        r matches Ok(reading) ==> reading.well_formed(),
    ensures
        match r {
            Ok(reading) => v.usable && strings(v.lines@) == reading_lines(
                catalog@,
                reading.catalog.entries@.len(),
                reading.declared_count() as nat,
                (reading.catalog.entries@.len() - reading.declared_count()) as nat,
                strings(reading.notes@),
            ),
            Err(report) => !v.usable && strings(v.lines@) == refusal_lines(catalog@, strings(report.problems@)),
        },
{
    match r {
        Ok(reading) => {
            let mut first = String::from_str(catalog);
            first.append(" is valid: ");
            first.append(decimal_string(reading.catalog.entries.len() as u128).as_str());
            first.append(" models, ");
            first.append(decimal_string(reading.declared() as u128).as_str());
            first.append(" declared and ");
            first.append(decimal_string(reading.discovered() as u128).as_str());
            first.append(" found under the root");
            let mut lines: Vec<String> = Vec::new();
            push_string(&mut lines, first);
            push_indented(&mut lines, &reading.notes);
            Verdict { usable: true, lines }
        },
        Err(report) => refusal(catalog, report),
    }
}

/// The verdict on a catalog read from its text alone: usable with how many
/// models it makes, or not with its problems.
pub fn of_shape(catalog: &str, r: &Result<Catalog, Report>) -> (v: Verdict)
    ensures
        match r {
            Ok(c) => v.usable && strings(v.lines@) == seq![shape_line(catalog@, c.entries@.len())],
            Err(report) => !v.usable && strings(v.lines@) == refusal_lines(catalog@, strings(report.problems@)),
        },
{
    match r {
        Ok(c) => {
            let mut first = String::from_str(catalog);
            first.append(" is valid: ");
            first.append(decimal_string(c.entries.len() as u128).as_str());
            first.append(
                " models (shape only -- no models root on this machine, so nothing was checked against its files)",
            );
            let mut lines: Vec<String> = Vec::new();
            push_string(&mut lines, first);
            assert(strings(lines@) =~= seq![shape_line(catalog@, c.entries@.len())]);
            Verdict { usable: true, lines }
        },
        Err(report) => refusal(catalog, report),
    }
}


/// The verdict on catalog text read against a models root: what
/// [`of_reading`] says of [`Catalog::read_text`]'s reading.
pub fn of_text_against(catalog: &str, text: &str, root: &str, disk: &Disk) -> (v: Verdict)
    ensures
        exists|r: Result<Reading, Report>|
            {
                &&& #[trigger] crate::catalog::read_text_gives(text@, root@, *disk, r)
                &&& match r {
                    Ok(reading) => v.usable && strings(v.lines@) == reading_lines(
                        catalog@,
                        reading.catalog.entries@.len(),
                        reading.declared_count() as nat,
                        (reading.catalog.entries@.len() - reading.declared_count()) as nat,
                        strings(reading.notes@),
                    ),
                    Err(report) => !v.usable && strings(v.lines@) == refusal_lines(
                        catalog@,
                        strings(report.problems@),
                    ),
                }
            },
{
    let r = Catalog::read_text(text, root, disk);
    of_reading(catalog, &r)
}

/// The verdict on catalog text read alone: what [`of_shape`] says of
/// [`Catalog::parse_text`]'s catalog.
pub fn of_text(catalog: &str, text: &str) -> (v: Verdict)
    ensures
        exists|r: Result<Catalog, Report>|
            {
                &&& #[trigger] crate::catalog::parse_text_gives(text@, r)
                &&& match r {
                    Ok(c) => v.usable && strings(v.lines@) == seq![shape_line(catalog@, c.entries@.len())],
                    Err(report) => !v.usable && strings(v.lines@) == refusal_lines(
                        catalog@,
                        strings(report.problems@),
                    ),
                }
            },
{
    let r = Catalog::parse_text(text);
    of_shape(catalog, &r)
}

} // verus!
