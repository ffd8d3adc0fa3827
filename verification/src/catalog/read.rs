//! The shape of a catalog: its version, its defaults, and its entries.
//!
//! This module knows what a catalog is made of. What any single field means,
//! and how to complain about it, belongs to [`super::field`]. Problems are
//! collected onto one list rather than returned at the first, so a reader
//! fixes a whole file in one pass.

use vstd::prelude::*;

use super::document::{item_at, keys_ascending, Item, Table};
use super::flags::text_before;
use super::field::{
    complaints, flags, flags_problems, flags_value, location_reading, names_of, optional_location,
    optional_positive, optional_residency, optional_runtime, optional_text, path_option,
    positive_reading, problem, problem_text, report_unknown, residency_reading, runtime_reading,
    table_at, table_of, text_option, text_reading, unknown_problems, value_of,
};
use super::flags::Flags;
use super::path::RelativePath;
use super::{Entry, Residency};
use crate::text::{push_string, strings};

verus! {

/// The budget an entry gets when neither it nor the defaults table names one.
///
/// Generous rather than tight, on purpose: a budget that expires on a healthy
/// model teaches people to raise it without reading it, and then it protects
/// nothing.
pub const DEFAULT_STARTUP_TIMEOUT_SECONDS: u32 = 300;

/// Fields an entry may carry.
pub open spec fn entry_fields() -> Seq<Seq<char>> {
    seq![
        "path"@,
        "draft_path"@,
        "projector_path"@,
        "context_size"@,
        "residency"@,
        "memory_estimate_mib"@,
        "reasoning_format"@,
        "runtime"@,
        "reasoning_effort"@,
        "startup_timeout_seconds"@,
        "flags"@,
    ]
}

/// Fields the defaults table may carry. A location is deliberately absent:
/// two models never share one file, so a default path could only be wrong.
pub open spec fn default_fields() -> Seq<Seq<char>> {
    seq![
        "context_size"@,
        "residency"@,
        "memory_estimate_mib"@,
        "reasoning_format"@,
        "runtime"@,
        "reasoning_effort"@,
        "startup_timeout_seconds"@,
        "flags"@,
    ]
}

/// Settings an entry inherits when it does not set them.
#[derive(Debug)]
pub struct Defaults {
    pub context_size: Option<u32>,
    pub residency: Option<Residency>,
    pub memory_estimate_mib: Option<u32>,
    pub reasoning_format: Option<String>,
    pub runtime: Option<String>,
    pub reasoning_effort: Option<String>,
    pub startup_timeout_seconds: Option<u32>,
    pub flags: Flags,
}

/// Everything one walk of the text produced.
///
/// The estimate is the one field the text may leave out, because it can be
/// derived from the files -- which needs a models root the text does not
/// have. An entry that leaves it out is named in `undeclared` and carries a
/// zero until a caller settles it.
#[derive(Debug)]
pub struct Drafts {
    pub version: Option<u32>,
    pub defaults: Defaults,
    pub entries: Vec<Entry>,
    pub undeclared: Vec<String>,
    pub problems: Vec<String>,
}

/// How the defaults table is named in its own problems.
pub open spec fn defaults_scope() -> Seq<char> {
    "catalog defaults"@
}

/// The defaults table, when the catalog has one.
pub open spec fn defaults_table(top: Table) -> Option<Table> {
    value_of(table_of(top, "defaults"@))
}

/// Whether defaults hold what the catalog's defaults table says, or nothing
/// when it has none.
pub open spec fn defaults_of(top: Table, d: Defaults) -> bool {
    &&& d.flags.well_formed()
    &&& match defaults_table(top) {
        None => {
            &&& d.context_size is None
            &&& d.residency is None
            &&& d.memory_estimate_mib is None
            &&& d.reasoning_format is None
            &&& d.runtime is None
            &&& d.reasoning_effort is None
            &&& d.startup_timeout_seconds is None
            &&& forall|k: Seq<char>| #[trigger] d.flags.value_of(k) is None
        },
        Some(t) => {
            &&& d.context_size == value_of(positive_reading(t, "context_size"@))
            &&& d.residency == value_of(residency_reading(t, "residency"@))
            &&& d.memory_estimate_mib == value_of(positive_reading(t, "memory_estimate_mib"@))
            &&& text_option(d.reasoning_format) == value_of(text_reading(t, "reasoning_format"@))
            &&& text_option(d.runtime) == value_of(runtime_reading(t, "runtime"@))
            &&& text_option(d.reasoning_effort) == value_of(text_reading(t, "reasoning_effort"@))
            &&& d.startup_timeout_seconds == value_of(
                positive_reading(t, "startup_timeout_seconds"@),
            )
            &&& forall|k: Seq<char>| #[trigger] d.flags.value_of(k) == flags_value(t, k)
        },
    }
}

/// What reading the defaults table complains of.
pub open spec fn defaults_problems(top: Table) -> Seq<Seq<char>> {
    let s = defaults_scope();
    complaints(table_of(top, "defaults"@), "catalog"@, "defaults"@) + match defaults_table(top) {
        None => Seq::empty(),
        Some(t) => unknown_problems(t.entries@, default_fields(), s) + complaints(
            positive_reading(t, "context_size"@),
            s,
            "context_size"@,
        ) + complaints(residency_reading(t, "residency"@), s, "residency"@) + complaints(
            positive_reading(t, "memory_estimate_mib"@),
            s,
            "memory_estimate_mib"@,
        ) + complaints(text_reading(t, "reasoning_format"@), s, "reasoning_format"@)
            + complaints(runtime_reading(t, "runtime"@), s, "runtime"@) + complaints(
            text_reading(t, "reasoning_effort"@),
            s,
            "reasoning_effort"@,
        ) + complaints(
            positive_reading(t, "startup_timeout_seconds"@),
            s,
            "startup_timeout_seconds"@,
        ) + flags_problems(t, s),
    }
}

/// The names a list of fields carries.
fn field_list(entry: bool) -> (r: Vec<&'static str>)
    ensures
        names_of(r@) == if entry {
            entry_fields()
        } else {
            default_fields()
        },
{
    let r = if entry {
        vec![
            "path",
            "draft_path",
            "projector_path",
            "context_size",
            "residency",
            "memory_estimate_mib",
            "reasoning_format",
            "runtime",
            "reasoning_effort",
            "startup_timeout_seconds",
            "flags",
        ]
    } else {
        vec![
            "context_size",
            "residency",
            "memory_estimate_mib",
            "reasoning_format",
            "runtime",
            "reasoning_effort",
            "startup_timeout_seconds",
            "flags",
        ]
    };
    assert(names_of(r@) =~= if entry {
        entry_fields()
    } else {
        default_fields()
    });
    r
}

/// Settings for nothing: what an entry inherits when there is no defaults
/// table.
fn no_defaults() -> (d: Defaults)
    ensures
        d.context_size is None,
        d.residency is None,
        d.memory_estimate_mib is None,
        d.reasoning_format is None,
        d.runtime is None,
        d.reasoning_effort is None,
        d.startup_timeout_seconds is None,
        d.flags.well_formed(),
        forall|k: Seq<char>| #[trigger] d.flags.value_of(k) is None,
{
    Defaults {
        context_size: None,
        residency: None,
        memory_estimate_mib: None,
        reasoning_format: None,
        runtime: None,
        reasoning_effort: None,
        startup_timeout_seconds: None,
        flags: Flags::new(),
    }
}

/// The defaults table, read.
pub fn defaults(top: &Table, problems: &mut Vec<String>) -> (d: Defaults)
    ensures
        defaults_of(*top, d),
        strings(final(problems)@) == strings(old(problems)@) + defaults_problems(*top),
{
    let ghost start = strings(problems@);
    let inner = match table_at(top, "catalog", "defaults", problems) {
        Some(t) => t,
        None => {
            assert(strings(problems@) =~= start + defaults_problems(*top));
            return no_defaults();
        },
    };
    let ghost p0 = strings(problems@);
    let s = "catalog defaults";
    let known = field_list(false);
    report_unknown(inner, &known, s, problems);
    let context_size = optional_positive(inner, s, "context_size", problems);
    let residency = optional_residency(inner, s, "residency", problems);
    let memory_estimate_mib = optional_positive(inner, s, "memory_estimate_mib", problems);
    let reasoning_format = optional_text(inner, s, "reasoning_format", problems);
    let runtime = optional_runtime(inner, s, "runtime", problems);
    let reasoning_effort = optional_text(inner, s, "reasoning_effort", problems);
    let startup_timeout_seconds = optional_positive(inner, s, "startup_timeout_seconds", problems);
    let flags = flags(inner, s, problems);
    proof {
        reveal_strlit("catalog defaults");
        assert(s@ == defaults_scope());
    }
    assert(strings(problems@) =~= start + defaults_problems(*top));
    Defaults {
        context_size,
        residency,
        memory_estimate_mib,
        reasoning_format,
        runtime,
        reasoning_effort,
        startup_timeout_seconds,
        flags,
    }
}

/// The version the catalog states.
pub open spec fn version_reading(top: Table) -> Result<Option<u32>, Seq<char>> {
    positive_reading(top, "version"@)
}

/// What reading the version complains of: it is required.
pub open spec fn version_problems(top: Table) -> Seq<Seq<char>> {
    if item_at(top, "version"@) is None {
        seq![problem("catalog"@, "version"@, "is required"@)]
    } else {
        complaints(version_reading(top), "catalog"@, "version"@)
    }
}

/// The version, which every catalog must carry.
pub fn version(top: &Table, problems: &mut Vec<String>) -> (r: Option<u32>)
    ensures
        r == value_of(version_reading(*top)),
        strings(final(problems)@) == strings(old(problems)@) + version_problems(*top),
{
    if top.get("version").is_none() {
        let ghost was = strings(problems@);
        push_string(problems, problem_text("catalog", "version", "is required"));
        assert(strings(problems@) =~= was + version_problems(*top));
        return None;
    }
    optional_positive(top, "catalog", "version", problems)
}

/// How an entry is named in its problems.
pub open spec fn entry_scope(id: Seq<char>) -> Seq<char> {
    "entry '"@ + id + "'"@
}

/// The context an entry has one way or the other: its own, or the default.
pub open spec fn entry_context(t: Table, d: Defaults) -> Option<u32> {
    match value_of(positive_reading(t, "context_size"@)) {
        Some(c) => Some(c),
        None => d.context_size,
    }
}

/// The estimate an entry declares, itself or by its defaults.
pub open spec fn entry_estimate(t: Table, d: Defaults) -> Option<u32> {
    match value_of(positive_reading(t, "memory_estimate_mib"@)) {
        Some(c) => Some(c),
        None => d.memory_estimate_mib,
    }
}

/// What reading an entry's locations complains of: the path it must carry,
/// and the draft and projector it may.
pub open spec fn location_problems(t: Table, s: Seq<char>) -> Seq<Seq<char>> {
    (if item_at(t, "path"@) is None {
        seq![problem(s, "path"@, "is required"@)]
    } else {
        complaints(location_reading(t, "path"@), s, "path"@)
    }) + complaints(location_reading(t, "draft_path"@), s, "draft_path"@) + complaints(
        location_reading(t, "projector_path"@),
        s,
        "projector_path"@,
    )
}

/// What reading an entry's context complains of: a value that is wrong, or
/// none from anywhere.
pub open spec fn context_problems(t: Table, d: Defaults, s: Seq<char>) -> Seq<Seq<char>> {
    complaints(positive_reading(t, "context_size"@), s, "context_size"@) + (if entry_context(
        t,
        d,
    ) is None && item_at(t, "context_size"@) is None {
        seq![problem(s, "context_size"@, "is required, and no default supplies it"@)]
    } else {
        Seq::empty()
    })
}

/// What reading one entry's table complains of, in the order its fields are
/// read: unknown fields, flags, the locations, the context, then the rest.
pub open spec fn entry_table_problems(id: Seq<char>, t: Table, d: Defaults) -> Seq<Seq<char>> {
    let s = entry_scope(id);
    unknown_problems(t.entries@, entry_fields(), s) + flags_problems(t, s) + location_problems(t, s)
        + context_problems(t, d, s) + settings_problems(t, s)
}

/// What reading one model's value complains of.
pub open spec fn entry_problems(id: Seq<char>, item: Item, d: Defaults) -> Seq<Seq<char>> {
    match item {
        Item::Table(t) => entry_table_problems(id, t, d),
        _ => seq![entry_scope(id) + ": must be a table"@],
    }
}

/// Whether a model's value makes an entry: a table with a usable path and a
/// context from somewhere.
pub open spec fn yields_entry(item: Item, d: Defaults) -> bool {
    match item {
        Item::Table(t) => value_of(location_reading(t, "path"@)) is Some && entry_context(t, d)
            is Some,
        _ => false,
    }
}

/// Whether a model's value leaves its estimate undeclared: a table that
/// names none, with no default to supply one.
pub open spec fn leaves_undeclared(item: Item, d: Defaults) -> bool {
    match item {
        Item::Table(t) => entry_estimate(t, d) is None,
        _ => false,
    }
}

/// The text an option holds, or the default's.
pub open spec fn or_default(own: Option<Seq<char>>, default: Option<String>) -> Option<Seq<char>> {
    match own {
        Some(v) => Some(v),
        None => text_option(default),
    }
}

/// Whether an entry is what a model's table says, with its defaults: every
/// field its own where it sets one, the default's where it does not, and
/// the flags the defaults' with its own laid over them.
pub open spec fn entry_of(e: Entry, id: Seq<char>, t: Table, d: Defaults) -> bool {
    &&& e.id@ == id
    &&& Some(e.path@) == value_of(location_reading(t, "path"@))
    &&& e.path.well_formed()
    &&& path_option(e.draft_path) == value_of(location_reading(t, "draft_path"@))
    &&& path_option(e.projector_path) == value_of(location_reading(t, "projector_path"@))
    &&& Some(e.context_size) == entry_context(t, d)
    &&& e.residency == match value_of(residency_reading(t, "residency"@)) {
        Some(r) => r,
        None => match d.residency {
            Some(r) => r,
            None => Residency::OnDemand,
        },
    }
    &&& e.memory_estimate_mib == match entry_estimate(t, d) {
        Some(m) => m,
        None => 0,
    }
    &&& text_option(e.reasoning_format) == or_default(
        value_of(text_reading(t, "reasoning_format"@)),
        d.reasoning_format,
    )
    &&& text_option(e.runtime) == or_default(value_of(runtime_reading(t, "runtime"@)), d.runtime)
    &&& text_option(e.reasoning_effort) == or_default(
        value_of(text_reading(t, "reasoning_effort"@)),
        d.reasoning_effort,
    )
    &&& e.startup_timeout_seconds == match value_of(
        positive_reading(t, "startup_timeout_seconds"@),
    ) {
        Some(v) => v,
        None => match d.startup_timeout_seconds {
            Some(v) => v,
            None => DEFAULT_STARTUP_TIMEOUT_SECONDS,
        },
    }
    &&& e.flags.well_formed()
    &&& forall|k: Seq<char>| #[trigger]
        e.flags.value_of(k) == match flags_value(t, k) {
            Some(v) => Some(v),
            None => d.flags.value_of(k),
        }
}

/// The first of two options that is set.
fn either<T>(own: Option<T>, default: Option<T>) -> (r: Option<T>)
    ensures
        r == match own {
            Some(v) => Some(v),
            None => default,
        },
{
    match own {
        Some(v) => Some(v),
        None => default,
    }
}

/// A default's text, copied.
pub fn copied(o: &Option<String>) -> (r: Option<String>)
    ensures
        text_option(r) == text_option(*o),
{
    match o {
        Some(s) => Some(s.clone()),
        None => None,
    }
}

/// The locations an entry's table gives: the path it must carry, and the
/// draft and projector it may.
fn locations(table: &Table, s: &str, problems: &mut Vec<String>) -> (r: (
    Option<RelativePath>,
    Option<RelativePath>,
    Option<RelativePath>,
))
    ensures
        path_option(r.0) == value_of(location_reading(*table, "path"@)),
        path_option(r.1) == value_of(location_reading(*table, "draft_path"@)),
        path_option(r.2) == value_of(location_reading(*table, "projector_path"@)),
        r.0 matches Some(p) ==> p.well_formed(),
        strings(final(problems)@) == strings(old(problems)@) + location_problems(*table, s@),
{
    let ghost p0 = strings(problems@);
    let path = if table.get("path").is_none() {
        push_string(problems, problem_text(s, "path", "is required"));
        None
    } else {
        optional_location(table, s, "path", problems)
    };
    let ghost p1 = strings(problems@);
    let draft_path = optional_location(table, s, "draft_path", problems);
    let ghost p2 = strings(problems@);
    let projector_path = optional_location(table, s, "projector_path", problems);
    assert(strings(problems@) =~= p0 + location_problems(*table, s@));
    (path, draft_path, projector_path)
}

/// The context an entry has, its own or the default, with a problem when it
/// has none from either and its table does not even try.
fn context(table: &Table, s: &str, defaults: &Defaults, problems: &mut Vec<String>) -> (r: Option<u32>)
    ensures
        r == entry_context(*table, *defaults),
        strings(final(problems)@) == strings(old(problems)@) + context_problems(
            *table,
            *defaults,
            s@,
        ),
{
    let ghost p0 = strings(problems@);
    let own = optional_positive(table, s, "context_size", problems);
    let context_size = either(own, defaults.context_size);
    let ghost p = strings(problems@);
    if context_size.is_none() && table.get("context_size").is_none() {
        push_string(
            problems,
            problem_text(s, "context_size", "is required, and no default supplies it"),
        );
    } else {
        assert(p + Seq::<Seq<char>>::empty() =~= p);
    }
    assert(strings(problems@) =~= p0 + context_problems(*table, *defaults, s@));
    context_size
}

/// The rest of an entry's settings, each its own or the default's.
pub struct Settings {
    pub memory_estimate_mib: Option<u32>,
    pub residency: Residency,
    pub reasoning_format: Option<String>,
    pub runtime: Option<String>,
    pub reasoning_effort: Option<String>,
    pub startup_timeout_seconds: u32,
}

/// What reading the rest of an entry's settings complains of.
pub open spec fn settings_problems(t: Table, s: Seq<char>) -> Seq<Seq<char>> {
    complaints(positive_reading(t, "memory_estimate_mib"@), s, "memory_estimate_mib"@)
        + complaints(residency_reading(t, "residency"@), s, "residency"@) + complaints(
        text_reading(t, "reasoning_format"@),
        s,
        "reasoning_format"@,
    ) + complaints(runtime_reading(t, "runtime"@), s, "runtime"@) + complaints(
        text_reading(t, "reasoning_effort"@),
        s,
        "reasoning_effort"@,
    ) + complaints(
        positive_reading(t, "startup_timeout_seconds"@),
        s,
        "startup_timeout_seconds"@,
    )
}

/// The rest of an entry's settings, read.
fn settings(table: &Table, s: &str, defaults: &Defaults, problems: &mut Vec<String>) -> (r: Settings)
    ensures
        r.memory_estimate_mib == entry_estimate(*table, *defaults),
        r.residency == match value_of(residency_reading(*table, "residency"@)) {
            Some(r) => r,
            None => match defaults.residency {
                Some(r) => r,
                None => Residency::OnDemand,
            },
        },
        text_option(r.reasoning_format) == or_default(
            value_of(text_reading(*table, "reasoning_format"@)),
            defaults.reasoning_format,
        ),
        text_option(r.runtime) == or_default(
            value_of(runtime_reading(*table, "runtime"@)),
            defaults.runtime,
        ),
        text_option(r.reasoning_effort) == or_default(
            value_of(text_reading(*table, "reasoning_effort"@)),
            defaults.reasoning_effort,
        ),
        r.startup_timeout_seconds == match value_of(
            positive_reading(*table, "startup_timeout_seconds"@),
        ) {
            Some(v) => v,
            None => match defaults.startup_timeout_seconds {
                Some(v) => v,
                None => DEFAULT_STARTUP_TIMEOUT_SECONDS,
            },
        },
        strings(final(problems)@) == strings(old(problems)@) + settings_problems(*table, s@),
{
    let ghost p0 = strings(problems@);
    let own_estimate = optional_positive(table, s, "memory_estimate_mib", problems);
    let memory_estimate_mib = either(own_estimate, defaults.memory_estimate_mib);
    let residency = match either(
        optional_residency(table, s, "residency", problems),
        defaults.residency,
    ) {
        Some(r) => r,
        None => Residency::OnDemand,
    };
    let reasoning_format = either(
        optional_text(table, s, "reasoning_format", problems),
        copied(&defaults.reasoning_format),
    );
    let runtime = either(optional_runtime(table, s, "runtime", problems), copied(&defaults.runtime));
    let reasoning_effort = either(
        optional_text(table, s, "reasoning_effort", problems),
        copied(&defaults.reasoning_effort),
    );
    let startup_timeout_seconds = match either(
        optional_positive(table, s, "startup_timeout_seconds", problems),
        defaults.startup_timeout_seconds,
    ) {
        Some(v) => v,
        None => DEFAULT_STARTUP_TIMEOUT_SECONDS,
    };
    assert(strings(problems@) =~= p0 + settings_problems(*table, s@));
    Settings {
        memory_estimate_mib,
        residency,
        reasoning_format,
        runtime,
        reasoning_effort,
        startup_timeout_seconds,
    }
}

/// One model's entry, or `None` once its problems are recorded; `undeclared`
/// learns of it when it declares no estimate.
///
/// Every field is read before any one of them is allowed to fail the entry.
/// Short-circuiting on the first would hide the rest until the reader had
/// fixed it and run again, one mistake per run.
pub fn entry(
    id: &str,
    value: &Item,
    defaults: &Defaults,
    problems: &mut Vec<String>,
    undeclared: &mut Vec<String>,
) -> (r: Option<Entry>)
    requires
        defaults.flags.well_formed(),
    ensures
        strings(final(problems)@) == strings(old(problems)@) + entry_problems(
            id@,
            *value,
            *defaults,
        ),
        strings(final(undeclared)@) == strings(old(undeclared)@) + if leaves_undeclared(
            *value,
            *defaults,
        ) {
            seq![id@]
        } else {
            Seq::<Seq<char>>::empty()
        },
        yields_entry(*value, *defaults) == r is Some,
        match r {
            Some(e) => *value is Table && entry_of(e, id@, value->Table_0, *defaults),
            None => true,
        },
{
    let mut scope = String::from_str("entry '");
    scope.append(id);
    scope.append("'");
    let ghost start = strings(problems@);
    let ghost und = strings(undeclared@);
    let table = match value {
        Item::Table(t) => t,
        _ => {
            let mut m = scope;
            m.append(": must be a table");
            push_string(problems, m);
            assert(strings(problems@) =~= start + entry_problems(id@, *value, *defaults));
            assert(strings(undeclared@) =~= und + Seq::<Seq<char>>::empty());
            return None;
        },
    };
    let s = scope.as_str();
    assert(s@ == entry_scope(id@));
    let known = field_list(true);
    report_unknown(table, &known, s, problems);
    let ghost p1 = strings(problems@);
    let own = flags(table, s, problems);
    let ghost p2 = strings(problems@);
    let mut merged = defaults.flags.clone();
    merged.extend(&own);
    let (path, draft_path, projector_path) = locations(table, s, problems);
    let ghost p3 = strings(problems@);
    let context_size = context(table, s, defaults, problems);
    let ghost p4 = strings(problems@);
    let rest = settings(table, s, defaults, problems);
    proof {
        let u = unknown_problems(table.entries@, entry_fields(), s@);
        let f = flags_problems(*table, s@);
        let l = location_problems(*table, s@);
        let c = context_problems(*table, *defaults, s@);
        let t = settings_problems(*table, s@);
        assert(p1 == start + u);
        assert(p2 == p1 + f);
        assert(p3 == p2 + l);
        assert(p4 == p3 + c);
        assert(strings(problems@) == p4 + t);
        assert(start + u + f + l + c + t =~= start + (u + f + l + c + t));
        assert(entry_problems(id@, *value, *defaults) == u + f + l + c + t);
    }
    if rest.memory_estimate_mib.is_none() {
        push_string(undeclared, String::from_str(id));
    } else {
        assert(strings(undeclared@) =~= und + Seq::<Seq<char>>::empty());
    }
    match (path, context_size) {
        (Some(path), Some(context_size)) => Some(
            Entry {
                id: String::from_str(id),
                path,
                draft_path,
                projector_path,
                context_size,
                residency: rest.residency,
                memory_estimate_mib: match rest.memory_estimate_mib {
                    Some(m) => m,
                    None => 0,
                },
                reasoning_format: rest.reasoning_format,
                runtime: rest.runtime,
                reasoning_effort: rest.reasoning_effort,
                startup_timeout_seconds: rest.startup_timeout_seconds,
                flags: merged,
            },
        ),
        _ => None,
    }
}

} // verus!

verus! {

/// What reading every model complains of, in key order.
pub open spec fn models_fold_problems(es: Seq<(String, Item)>, d: Defaults) -> Seq<Seq<char>>
    decreases es.len(),
{
    if es.len() == 0 {
        Seq::empty()
    } else {
        models_fold_problems(es.drop_last(), d) + entry_problems(es.last().0@, es.last().1, d)
    }
}

/// The models that leave their estimate undeclared, in key order.
pub open spec fn models_undeclared(es: Seq<(String, Item)>, d: Defaults) -> Seq<Seq<char>>
    decreases es.len(),
{
    if es.len() == 0 {
        Seq::empty()
    } else {
        models_undeclared(es.drop_last(), d) + if leaves_undeclared(es.last().1, d) {
            seq![es.last().0@]
        } else {
            Seq::<Seq<char>>::empty()
        }
    }
}

/// The models that make entries, in key order.
pub open spec fn models_yielding(es: Seq<(String, Item)>, d: Defaults) -> Seq<(String, Item)>
    decreases es.len(),
{
    if es.len() == 0 {
        Seq::empty()
    } else if yields_entry(es.last().1, d) {
        models_yielding(es.drop_last(), d).push(es.last())
    } else {
        models_yielding(es.drop_last(), d)
    }
}

/// The models that make entries are among the models, and keep their key
/// order.
pub proof fn lemma_yielding_in_key_order(es: Seq<(String, Item)>, d: Defaults)
    requires
        keys_ascending(es),
    ensures
        keys_ascending(models_yielding(es, d)),
        forall|k: int| 0 <= k < models_yielding(es, d).len() ==> es.contains(#[trigger] models_yielding(es, d)[k]),
    decreases es.len(),
{
    if es.len() > 0 {
        let rest = es.drop_last();
        assert forall|i: int, j: int| 0 <= i < j < rest.len() implies text_before(#[trigger] rest[i].0@, #[trigger] rest[j].0@) by {
            assert(rest[i] == es[i] && rest[j] == es[j]);
        }
        lemma_yielding_in_key_order(rest, d);
        let y = models_yielding(rest, d);
        assert forall|k: int| 0 <= k < y.len() implies es.contains(#[trigger] y[k]) && text_before(y[k].0@, es.last().0@) by {
            assert(rest.contains(y[k]));
            let i = choose|i: int| 0 <= i < rest.len() && rest[i] == y[k];
            assert(es[i] == y[k]);
            assert(text_before(es[i].0@, es[es.len() - 1].0@));
        }
        if yields_entry(es.last().1, d) {
            let z = y.push(es.last());
            assert(models_yielding(es, d) == z);
            assert(es.contains(es.last())) by {
                assert(es[es.len() - 1] == es.last());
            }
            assert forall|i: int, j: int| 0 <= i < j < z.len() implies text_before(#[trigger] z[i].0@, #[trigger] z[j].0@) by {
                if j == z.len() - 1 {
                    assert(z[i] == y[i]);
                } else {
                    assert(z[i] == y[i] && z[j] == y[j]);
                }
            }
            assert forall|k: int| 0 <= k < z.len() implies es.contains(#[trigger] z[k]) by {
                if k < y.len() {
                    assert(z[k] == y[k]);
                }
            }
        }
    }
}

/// The models table, when the catalog has one.
pub open spec fn models_table(top: Table) -> Option<Table> {
    value_of(table_of(top, "models"@))
}

/// The models in the catalog, in key order.
pub open spec fn model_items(top: Table) -> Seq<(String, Item)> {
    match models_table(top) {
        Some(m) => m.entries@,
        None => Seq::empty(),
    }
}

/// What reading the models complains of: the table is required.
pub open spec fn models_problems(top: Table, d: Defaults) -> Seq<Seq<char>> {
    if item_at(top, "models"@) is None {
        seq![problem("catalog"@, "models"@, "is required"@)]
    } else {
        complaints(table_of(top, "models"@), "catalog"@, "models"@) + models_fold_problems(
            model_items(top),
            d,
        )
    }
}

/// Whether an entry is the one a model makes.
pub open spec fn entry_made(e: Entry, model: (String, Item), d: Defaults) -> bool {
    model.1 is Table && entry_of(e, model.0@, model.1->Table_0, d)
}

/// Whether entries are the ones these models make, in order.
pub open spec fn entries_of(entries: Seq<Entry>, made: Seq<(String, Item)>, d: Defaults) -> bool {
    &&& entries.len() == made.len()
    &&& forall|j: int|
        0 <= j < entries.len() ==> #[trigger] entry_made(entries[j], made[j], d)
}

/// One more entry made by one more model keeps entries what their models
/// make.
proof fn lemma_entries_push(
    entries: Seq<Entry>,
    e: Entry,
    made: Seq<(String, Item)>,
    model: (String, Item),
    d: Defaults,
)
    requires
        entries_of(entries, made, d),
        model.1 is Table,
        entry_of(e, model.0@, model.1->Table_0, d),
    ensures
        entries_of(entries.push(e), made.push(model), d),
{
    let es = entries.push(e);
    let ms = made.push(model);
    assert forall|j: int| 0 <= j < es.len() implies #[trigger] entry_made(es[j], ms[j], d) by {
        if j < entries.len() {
            assert(es[j] == entries[j]);
            assert(ms[j] == made[j]);
            assert(entry_made(entries[j], made[j], d));
        } else {
            assert(es[j] == e);
            assert(ms[j] == model);
        }
    }
}

/// Every model's entry, in key order.
pub fn entries(top: &Table, defaults: &Defaults, problems: &mut Vec<String>, undeclared: &mut Vec<String>) -> (r: Vec<Entry>)
    requires
        defaults.flags.well_formed(),
    ensures
        strings(final(problems)@) == strings(old(problems)@) + models_problems(*top, *defaults),
        strings(final(undeclared)@) == strings(old(undeclared)@) + models_undeclared(
            model_items(*top),
            *defaults,
        ),
        entries_of(r@, models_yielding(model_items(*top), *defaults), *defaults),
{
    let ghost p0 = strings(problems@);
    let ghost u0 = strings(undeclared@);
    let mut out: Vec<Entry> = Vec::new();
    if top.get("models").is_none() {
        push_string(problems, problem_text("catalog", "models", "is required"));
        assert(strings(undeclared@) =~= u0 + models_undeclared(model_items(*top), *defaults));
        return out;
    }
    let models = match table_at(top, "catalog", "models", problems) {
        Some(m) => m,
        None => {
            assert(strings(problems@) =~= p0 + models_problems(*top, *defaults));
            assert(strings(undeclared@) =~= u0 + models_undeclared(model_items(*top), *defaults));
            return out;
        },
    };
    let ghost es = models.entries@;
    assert(es == model_items(*top));
    let ghost p1 = strings(problems@);
    let mut i: usize = 0;
    assert(es.subrange(0, 0) =~= Seq::<(String, Item)>::empty());
    assert(p1 + Seq::<Seq<char>>::empty() =~= p1);
    assert(u0 + Seq::<Seq<char>>::empty() =~= u0);
    while i < models.entries.len()
        invariant
            i <= models.entries.len(),
            es == models.entries@,
            defaults.flags.well_formed(),
            strings(problems@) == p1 + models_fold_problems(es.subrange(0, i as int), *defaults),
            strings(undeclared@) == u0 + models_undeclared(es.subrange(0, i as int), *defaults),
            entries_of(out@, models_yielding(es.subrange(0, i as int), *defaults), *defaults),
        decreases models.entries.len() - i,
    {
        let ghost prefix = es.subrange(0, i + 1);
        assert(prefix.drop_last() =~= es.subrange(0, i as int));
        assert(prefix.last() == es[i as int]);
        let ghost pw = strings(problems@);
        let ghost uw = strings(undeclared@);
        let ghost before = out@;
        let made = entry(
            models.entries[i].0.as_str(),
            &models.entries[i].1,
            defaults,
            problems,
            undeclared,
        );
        if let Some(e) = made {
            out.push(e);
            assert(models_yielding(prefix, *defaults) == models_yielding(
                es.subrange(0, i as int),
                *defaults,
            ).push(es[i as int]));
            proof {
                lemma_entries_push(before, e, models_yielding(es.subrange(0, i as int), *defaults), es[i as int], *defaults);
            }
            assert(out@ == before.push(e));
            assert(entries_of(out@, models_yielding(prefix, *defaults), *defaults));
        } else {
            assert(models_yielding(prefix, *defaults) == models_yielding(
                es.subrange(0, i as int),
                *defaults,
            ));
            assert(entries_of(out@, models_yielding(prefix, *defaults), *defaults));
        }
        assert(strings(problems@) =~= p1 + models_fold_problems(prefix, *defaults));
        assert(strings(undeclared@) =~= u0 + models_undeclared(prefix, *defaults));
        i += 1;
    }
    assert(es.subrange(0, models.entries.len() as int) =~= es);
    assert(strings(problems@) =~= p0 + models_problems(*top, *defaults));
    out
}

/// What one walk of a catalog complains of: the version, the defaults, then
/// the models.
pub open spec fn walk_problems(top: Table, d: Defaults) -> Seq<Seq<char>> {
    version_problems(top) + defaults_problems(top) + models_problems(top, d)
}

/// Walks a catalog once, collecting every problem rather than the first.
pub fn drafts(top: &Table) -> (r: Drafts)
    ensures
        r.version == value_of(version_reading(*top)),
        defaults_of(*top, r.defaults),
        strings(r.problems@) == walk_problems(*top, r.defaults),
        strings(r.undeclared@) == models_undeclared(model_items(*top), r.defaults),
        entries_of(r.entries@, models_yielding(model_items(*top), r.defaults), r.defaults),
{
    let mut problems: Vec<String> = Vec::new();
    let mut undeclared: Vec<String> = Vec::new();
    assert(strings(problems@) =~= Seq::<Seq<char>>::empty());
    assert(strings(undeclared@) =~= Seq::<Seq<char>>::empty());
    let version = version(top, &mut problems);
    let defaults = defaults(top, &mut problems);
    let entries = entries(top, &defaults, &mut problems, &mut undeclared);
    assert(strings(problems@) =~= walk_problems(*top, defaults));
    assert(strings(undeclared@) =~= models_undeclared(model_items(*top), defaults));
    Drafts { version, defaults, entries, undeclared, problems }
}

} // verus!
