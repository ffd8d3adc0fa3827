//! The catalog: which models this router can serve, and how each is launched.
//!
//! Parse text, get a `Catalog` back or a report naming everything wrong with
//! it; or read the same text against a snapshot of a models root, and get
//! back the catalog with every estimate settled and every model file the root
//! carries beside it.
//!
//! Two properties are part of the interface rather than the implementation.
//! A report names every problem, not the first. And every problem names the
//! entry it came from and the field that caused it.

pub mod capability;
pub mod discover;
pub mod estimate;
pub mod document;
pub mod field;
pub mod flags;
pub mod laws;
pub mod path;
pub mod read;
pub mod resolve;
pub mod served;
pub mod toml_text;

use vstd::prelude::*;

pub use flags::Flags;
pub use path::RelativePath;

use crate::text::{chars_of, push_string, same, strings};
use document::{keys_ascending, Item, Table};
use estimate::Disk;
use laws::{law_read_names_once, once_each};
use resolve::{read_outcome, Reading};
use toml_text::{document, toml_document};
use field::problem_text;
use flags::text_before;
use field::{positive_reading, value_of};
use read::{
    defaults_of, defaults_table, drafts, entries_of, entry_context, entry_estimate,
    lemma_yielding_in_key_order, leaves_undeclared, model_items, models_undeclared,
    models_yielding, version_reading, walk_problems, Defaults,
};

verus! {

/// Everything wrong with one catalog, gathered in a single pass.
#[derive(Debug, PartialEq, Eq)]
pub struct Report {
    pub problems: Vec<String>,
}

impl Report {
    /// A report carrying one problem, for failures that stop the parse.
    pub fn single(problem: String) -> (r: Self)
        ensures
            r.problems@.len() == 1,
            r.problems@[0] == problem,
    {
        let mut problems = Vec::new();
        problems.push(problem);
        Report { problems }
    }

    /// The problems, in the order they were found.
    pub fn problems(&self) -> (p: &[String])
        ensures
            p@ == self.problems@,
    {
        self.problems.as_slice()
    }
}

/// Whether a model is held loaded or loaded when something asks for it.
///
/// A resident model is never evicted, which is what lets a small model answer
/// immediately while larger ones come and go around it.
#[derive(Debug, Clone, Copy, PartialEq, Eq)]
pub enum Residency {
    /// Loaded at startup and never evicted.
    Resident,
    /// Loaded on first use, and evictable afterwards.
    OnDemand,
}

/// The residency a catalog spelling names: `resident` or `on-demand`, and no
/// other.
pub open spec fn residency_named(value: Seq<char>) -> Option<Residency> {
    if value == "resident"@ {
        Some(Residency::Resident)
    } else if value == "on-demand"@ {
        Some(Residency::OnDemand)
    } else {
        None
    }
}

impl Residency {
    /// The residency a catalog spelling names.
    pub fn parse(value: &str) -> (r: Option<Self>)
        ensures
            r == residency_named(value@),
    {
        let v = chars_of(value);
        if same(&v, &chars_of("resident")) {
            Some(Residency::Resident)
        } else if same(&v, &chars_of("on-demand")) {
            Some(Residency::OnDemand)
        } else {
            None
        }
    }

    /// Whether this is the resident residency.
    pub fn is_resident(&self) -> (b: bool)
        ensures
            b == (*self == Residency::Resident),
    {
        match self {
            Residency::Resident => true,
            Residency::OnDemand => false,
        }
    }
}

/// One model the router can serve.
#[derive(Debug, PartialEq, Eq)]
pub struct Entry {
    /// Names the model, never the role it happens to serve.
    pub id: String,
    /// The model weights.
    pub path: RelativePath,
    /// The smaller model used for speculative decoding, when there is one.
    pub draft_path: Option<RelativePath>,
    /// The multimodal projector, when the model takes more than text.
    pub projector_path: Option<RelativePath>,
    /// Tokens of context the server is started with.
    pub context_size: u32,
    /// Whether this model is held loaded.
    pub residency: Residency,
    /// What loading this model is expected to cost, in mebibytes.
    pub memory_estimate_mib: u32,
    /// How reasoning output is delimited, when the model produces any.
    pub reasoning_format: Option<String>,
    /// How much reasoning effort to ask for, when the model accepts a level.
    pub reasoning_effort: Option<String>,
    /// How long this model may take to become ready before the router gives
    /// up on it and says so.
    pub startup_timeout_seconds: u32,
    /// Which build of the server this entry needs, when it needs a particular
    /// one: a name, never a path.
    pub runtime: Option<String>,
    /// Server settings this router passes through without interpreting.
    pub flags: Flags,
}

/// Where an entry's memory estimate came from.
#[derive(Debug, Clone, Copy, PartialEq, Eq)]
pub enum EstimateSource {
    /// Written in the catalog, by the entry or by the defaults table.
    Declared,
    /// Worked out from the entry's files, because nothing declared it.
    Derived,
}

/// Every model the router can serve, and the settings they share.
#[derive(Debug, PartialEq, Eq)]
pub struct Catalog {
    /// The schema version this file was written against.
    pub version: u32,
    /// The entries, ordered by identifier so two reads agree.
    pub entries: Vec<Entry>,
    /// The entries whose estimate was derived from their files.
    pub derived: Vec<String>,
    /// The entries that came from the models root rather than the text.
    pub discovered: Vec<String>,
}

/// The identifiers of a list of entries, in order.
pub open spec fn ids(entries: Seq<Entry>) -> Seq<Seq<char>> {
    entries.map_values(|e: Entry| e.id@)
}

/// What the resident entries of a list say they cost, together.
pub open spec fn reserved(entries: Seq<Entry>) -> nat
    decreases entries.len(),
{
    if entries.len() == 0 {
        0
    } else {
        reserved(entries.drop_last()) + if entries.last().residency == Residency::Resident {
            entries.last().memory_estimate_mib as nat
        } else {
            0
        }
    }
}

/// Where the first entry with this identifier stands, if any does.
/// Whether an entry's context, estimate and startup budget are all above
/// zero and its path is one a catalog can carry.
pub open spec fn settings_positive(e: Entry) -> bool {
    &&& e.context_size > 0
    &&& e.memory_estimate_mib > 0
    &&& e.startup_timeout_seconds > 0
    &&& e.path.well_formed()
}

/// A setting read as a positive number is above zero.
proof fn lemma_positive_value(t: Table, field: Seq<char>)
    ensures
        value_of(positive_reading(t, field)) matches Some(v) ==> v > 0,
{
}

/// What the defaults supply is above zero, where they supply a number.
proof fn lemma_defaults_positive(top: Table, d: Defaults)
    requires
        defaults_of(top, d),
    ensures
        d.context_size matches Some(v) ==> v > 0,
        d.memory_estimate_mib matches Some(v) ==> v > 0,
        d.startup_timeout_seconds matches Some(v) ==> v > 0,
{
    match defaults_table(top) {
        Some(t) => {
            lemma_positive_value(t, "context_size"@);
            lemma_positive_value(t, "memory_estimate_mib"@);
            lemma_positive_value(t, "startup_timeout_seconds"@);
        },
        None => {},
    }
}

/// One problem for each identifier left undeclared.
proof fn lemma_undeclared_len(ids: Seq<Seq<char>>)
    ensures
        undeclared_problems(ids).len() == ids.len(),
    decreases ids.len(),
{
    if ids.len() > 0 {
        lemma_undeclared_len(ids.drop_last());
    }
}

/// With no model left undeclared, every model table declares an estimate,
/// itself or by its defaults.
proof fn lemma_all_declared(es: Seq<(String, Item)>, d: Defaults)
    ensures
        models_undeclared(es, d).len() == 0 ==> forall|i: int|
            0 <= i < es.len() ==> !leaves_undeclared(#[trigger] es[i].1, d),
    decreases es.len(),
{
    if es.len() > 0 {
        lemma_all_declared(es.drop_last(), d);
        if models_undeclared(es, d).len() == 0 {
            assert forall|i: int| 0 <= i < es.len() implies !leaves_undeclared(#[trigger] es[i].1, d) by {
                if i < es.len() - 1 {
                    assert(es.drop_last()[i] == es[i]);
                }
            }
        }
    }
}

/// The models that make entries are among the models.
proof fn lemma_yielding_within(es: Seq<(String, Item)>, d: Defaults)
    ensures
        forall|k: int| 0 <= k < models_yielding(es, d).len() ==> es.contains(#[trigger] models_yielding(es, d)[k]),
    decreases es.len(),
{
    if es.len() > 0 {
        let rest = es.drop_last();
        lemma_yielding_within(rest, d);
        let y = models_yielding(rest, d);
        assert forall|k: int| 0 <= k < y.len() implies es.contains(#[trigger] y[k]) by {
            let i = choose|i: int| 0 <= i < rest.len() && rest[i] == y[k];
            assert(es[i] == y[k]);
        }
        if read::yields_entry(es.last().1, d) {
            let z = y.push(es.last());
            assert(es[es.len() - 1] == es.last());
            assert forall|k: int| 0 <= k < z.len() implies es.contains(#[trigger] z[k]) by {
                if k < y.len() {
                    assert(z[k] == y[k]);
                }
            }
        }
    }
}

/// A catalog whose models table keeps its keys in order makes its entries
/// in order of identifier.
pub proof fn lemma_entries_in_key_order(document: Table, d: Defaults, es: Seq<Entry>)
    requires
        keys_ascending(model_items(document)),
        entries_of(es, models_yielding(model_items(document), d), d),
    ensures
        ids_ascending(es),
{
    let y = models_yielding(model_items(document), d);
    lemma_yielding_in_key_order(model_items(document), d);
    assert forall|i: int, j: int| 0 <= i < j < es.len() implies text_before(
        #[trigger] es[i].id@,
        #[trigger] es[j].id@,
    ) by {
        assert(read::entry_made(es[i], y[i], d));
        assert(read::entry_made(es[j], y[j], d));
    }
}

/// A document whose tables keep their keys in order keeps its models in
/// key order.
proof fn lemma_models_in_key_order(t: Table)
    requires
        toml_text::in_key_order(t),
    ensures
        keys_ascending(model_items(t)),
{
    toml_text::lemma_find_within(t.entries@, "models"@);
    if let Some(inner) = read::models_table(t) {
        let i = choose|i: int| 0 <= i < t.entries@.len() && #[trigger] t.entries@[i].1 == Item::Table(inner);
        assert(t.entries@[i].1 matches Item::Table(x) && x == inner);
    }
}

/// A reading of a document whose tables keep their keys in order names
/// each entry it derived, and each it discovered, once.
proof fn lemma_read_text_once(t: Table, root: Seq<char>, disk: Disk, r: Result<Reading, Report>)
    requires
        toml_text::in_key_order(t),
        exists|d: Defaults, es: Seq<Entry>| #[trigger] read_outcome(t, root, disk, d, es, r),
    ensures
        r matches Ok(reading) ==> once_each(strings(reading.catalog.derived@)) && once_each(
            strings(reading.catalog.discovered@),
        ),
{
    lemma_models_in_key_order(t);
    let (d, es) = choose|d: Defaults, es: Seq<Entry>| #[trigger] read_outcome(t, root, disk, d, es, r);
    if r is Ok {
        law_read_names_once(t, root, disk, d, es, r->Ok_0);
    }
}

/// Entries strictly in order of identifier, so each identifier appears once.
pub open spec fn ids_ascending(entries: Seq<Entry>) -> bool {
    forall|i: int, j: int|
        0 <= i < j < entries.len() ==> text_before(#[trigger] entries[i].id@, #[trigger] entries[j].id@)
}

pub open spec fn first_with_id(entries: Seq<Entry>, id: Seq<char>, at: int) -> bool {
    0 <= at < entries.len() && entries[at].id@ == id && forall|j: int|
        0 <= j < at ==> entries[j].id@ != id
}

/// Whether a list of names holds this one.
pub open spec fn names(list: Seq<String>, id: Seq<char>) -> bool {
    exists|i: int| 0 <= i < list.len() && list[i]@ == id
}

/// Whether a list of names holds this one.
pub fn named(list: &Vec<String>, id: &str) -> (b: bool)
    ensures
        b == names(list@, id@),
{
    let wanted = chars_of(id);
    let mut i: usize = 0;
    while i < list.len()
        invariant
            i <= list.len(),
            wanted@ == id@,
            forall|j: int| 0 <= j < i ==> list@[j]@ != id@,
        decreases list.len() - i,
    {
        if same(&chars_of(list[i].as_str()), &wanted) {
            return true;
        }
        i += 1;
    }
    false
}

/// The problem for each entry that declares no estimate, when there is no
/// root to derive one from.
pub open spec fn undeclared_problems(ids: Seq<Seq<char>>) -> Seq<Seq<char>>
    decreases ids.len(),
{
    if ids.len() == 0 {
        Seq::empty()
    } else {
        undeclared_problems(ids.drop_last()).push(
            field::problem(
                read::entry_scope(ids.last()),
                "memory_estimate_mib"@,
                "is required, and no default supplies it"@,
            ),
        )
    }
}

/// The version a catalog states, if it states a usable one.
pub open spec fn value_of_version(top: Table) -> Option<u32> {
    field::value_of(version_reading(top))
}

/// Everything a catalog read from text alone is refused for, given how its
/// defaults read.
pub open spec fn parse_problems(top: Table, d: Defaults) -> Seq<Seq<char>> {
    walk_problems(top, d) + undeclared_problems(models_undeclared(model_items(top), d))
}

/// Why a catalog that is not TOML is refused, in the parser's own words.
pub open spec fn unreadable_text(error: Seq<char>) -> Seq<char> {
    "the catalog is not valid TOML: "@ + error
}

/// What parsing a document gives: every problem, or the catalog its models
/// make, with each entry's settings above zero and, where the models table
/// keeps its keys in order, the entries in order of identifier.
pub open spec fn parsed_as(document: Table, r: Result<Catalog, Report>) -> bool {
    &&& (exists|d: Defaults|
            {
                &&& defaults_of(document, d)
                &&& match r {
                    Ok(c) => {
                        &&& parse_problems(document, d).len() == 0
                        &&& c.version == match value_of_version(document) {
                            Some(v) => v,
                            None => 0,
                        }
                        &&& entries_of(
                            c.entries@,
                            models_yielding(model_items(document), d),
                            d,
                        )
                        &&& c.derived@.len() == 0
                        &&& c.discovered@.len() == 0
                    },
                    Err(report) => {
                        &&& parse_problems(document, d).len() > 0
                        &&& strings(report.problems@) == parse_problems(document, d)
                    },
                }
            })
    &&& (keys_ascending(model_items(document)) ==> (r matches Ok(c) ==> ids_ascending(c.entries@)))
    &&& (r matches Ok(c) ==> forall|j: int| 0 <= j < c.entries@.len() ==> settings_positive(#[trigger] c.entries@[j]))
    &&& (r matches Ok(c) ==> c.version > 0)
}

/// What reading catalog text alone gives: the one problem when the text is
/// not TOML, else what [`parsed_as`] says of the document it holds, whose
/// models keep their keys in order, so the entries come in order of
/// identifier.
pub open spec fn parse_text_gives(text: Seq<char>, r: Result<Catalog, Report>) -> bool {
    &&& match toml_document(text) {
        Err(e) => r matches Err(report) && strings(report.problems@) == seq![unreadable_text(e)],
        Ok(t) => parsed_as(t, r) && keys_ascending(model_items(t)),
    }
    &&& r matches Ok(c) ==> ids_ascending(c.entries@)
}

/// What reading catalog text against a models root gives: the one problem
/// when the text is not TOML, else what [`read_outcome`] says of the document
/// it holds; a reading counts no more declared entries than it holds, and
/// names each entry it derived, and each it discovered, once.
pub open spec fn read_text_gives(text: Seq<char>, root: Seq<char>, disk: Disk, r: Result<Reading, Report>) -> bool {
    &&& toml_document(text) matches Err(e) ==> (r matches Err(report) && strings(report.problems@) == seq![unreadable_text(e)])
    &&& toml_document(text) matches Ok(t) ==> keys_ascending(model_items(t)) && exists|d: Defaults, es: Seq<Entry>| #[trigger] read_outcome(t, root, disk, d, es, r)
    &&& r matches Ok(reading) ==> {
        &&& reading.well_formed()
        &&& once_each(strings(reading.catalog.derived@))
        &&& once_each(strings(reading.catalog.discovered@))
    }
}

impl Catalog {
    /// The report for text that is not TOML: nothing further can be read, so
    /// this is the one problem.
    pub fn unreadable(error: &str) -> (r: Report)
        ensures
            strings(r.problems@) == seq![unreadable_text(error@)],
    {
        let mut m = String::from_str("the catalog is not valid TOML: ");
        m.append(error);
        let r = Report::single(m);
        assert(strings(r.problems@) =~= seq![unreadable_text(error@)]);
        r
    }

    /// Reads a catalog from its document, reporting everything wrong with it.
    ///
    /// Text alone cannot derive an estimate; with no root to read the files
    /// from, an entry that declares none is refused. Every problem is
    /// collected, so one run of the tool surfaces one round of mistakes.
    ///
    /// # Errors
    ///
    /// Returns a [`Report`] naming every problem found.
    pub fn parse(document: &Table) -> (r: Result<Self, Report>)
        ensures
            parsed_as(*document, r),
    {
        let drafts = drafts(document);
        let read::Drafts { version, defaults, entries, undeclared, mut problems } = drafts;
        let ghost d = defaults;
        let ghost walked = strings(problems@);
        let mut i: usize = 0;
        assert(undeclared@.subrange(0, 0) =~= Seq::<String>::empty());
        assert(strings(undeclared@.subrange(0, 0)) =~= Seq::<Seq<char>>::empty());
        assert(walked + undeclared_problems(Seq::empty()) =~= walked);
        while i < undeclared.len()
            invariant
                i <= undeclared.len(),
                strings(problems@) == walked + undeclared_problems(
                    strings(undeclared@.subrange(0, i as int)),
                ),
            decreases undeclared.len() - i,
        {
            let ghost ids = strings(undeclared@.subrange(0, i + 1));
            assert(ids.drop_last() =~= strings(undeclared@.subrange(0, i as int)));
            assert(ids.last() == undeclared@[i as int]@);
            let mut scope = String::from_str("entry '");
            scope.append(undeclared[i].as_str());
            scope.append("'");
            let ghost was = strings(problems@);
            push_string(
                &mut problems,
                problem_text(
                    scope.as_str(),
                    "memory_estimate_mib",
                    "is required, and no default supplies it",
                ),
            );
            assert(strings(problems@) =~= walked + undeclared_problems(ids));
            i += 1;
        }
        assert(undeclared@.subrange(0, undeclared.len() as int) =~= undeclared@);
        assert(strings(problems@) =~= parse_problems(*document, d));
        proof {
            let items = model_items(*document);
            let y = models_yielding(items, d);
            if problems.len() == 0 {
                lemma_undeclared_len(models_undeclared(items, d));
                lemma_all_declared(items, d);
                lemma_yielding_within(items, d);
                lemma_defaults_positive(*document, d);
                lemma_positive_value(*document, "version"@);
                assert(read::version_problems(*document).len() == 0);
                assert forall|j: int| 0 <= j < entries@.len() implies settings_positive(#[trigger] entries@[j]) by {
                    assert(read::entry_made(entries@[j], y[j], d));
                    assert(items.contains(y[j]));
                    let i = choose|i: int| 0 <= i < items.len() && items[i] == y[j];
                    let t = y[j].1->Table_0;
                    lemma_positive_value(t, "context_size"@);
                    lemma_positive_value(t, "memory_estimate_mib"@);
                    lemma_positive_value(t, "startup_timeout_seconds"@);
                }
            }
            if keys_ascending(model_items(*document)) {
                lemma_entries_in_key_order(*document, d, entries@);
            }
        }
        if problems.len() == 0 {
            Ok(
                Catalog {
                    version: match version {
                        Some(v) => v,
                        None => 0,
                    },
                    entries,
                    derived: Vec::new(),
                    discovered: Vec::new(),
                },
            )
        } else {
            Err(Report { problems })
        }
    }

    /// Reads a catalog from its text, reporting everything wrong with it.
    ///
    /// Text that is not TOML stops the reading and is the one problem,
    /// because nothing further can be read; otherwise this is [`Catalog::parse`]
    /// of the document the text holds, whose tables keep their keys in order,
    /// so the entries come in order of identifier.
    ///
    /// # Errors
    ///
    /// Returns a [`Report`] naming every problem found.
    pub fn parse_text(text: &str) -> (r: Result<Self, Report>)
        ensures
            parse_text_gives(text@, r),
    {
        match document(text) {
            Err(e) => Err(Self::unreadable(e.as_str())),
            Ok(t) => {
                proof {
                    lemma_models_in_key_order(t);
                }
                Self::parse(&t)
            },
        }
    }

    /// Reads a catalog from its text against what a models root holds.
    ///
    /// Text that is not TOML stops the reading and is the one problem;
    /// otherwise this is [`Catalog::read`] of the document the text holds,
    /// which names each entry whose estimate it derived, and each it
    /// discovered, once.
    ///
    /// # Errors
    ///
    /// Returns a [`Report`] naming every problem found.
    pub fn read_text(text: &str, root: &str, disk: &Disk) -> (r: Result<Reading, Report>)
        ensures
            read_text_gives(text@, root@, *disk, r),
    {
        match document(text) {
            Err(e) => Err(Self::unreadable(e.as_str())),
            Ok(t) => {
                let r = Self::read(&t, root, disk);
                proof {
                    lemma_models_in_key_order(t);
                    lemma_read_text_once(t, root@, *disk, r);
                    assert(toml_document(text@)->Ok_0 == t);
                }
                r
            },
        }
    }

    /// What the entries held loaded reserve, in mebibytes.
    ///
    /// A catalog fact rather than a machine one: the sum of what the resident
    /// entries say they cost. Held at the largest figure a `u64` carries
    /// rather than wrapped, which no real catalog approaches.
    pub fn resident_reservation_mib(&self) -> (r: u64)
        ensures
            r == if reserved(self.entries@) <= u64::MAX {
                reserved(self.entries@)
            } else {
                u64::MAX as nat
            },
            self.entries@.len() <= 0x1_0000_0000 ==> r == reserved(self.entries@),
    {
        proof {
            if self.entries@.len() <= 0x1_0000_0000 {
                laws::law_reservation_is_the_sum(self.entries@, self.entries@[0]);
            }
        }
        let mut total: u64 = 0;
        let mut i: usize = 0;
        while i < self.entries.len()
            invariant
                i <= self.entries.len(),
                total == if reserved(self.entries@.subrange(0, i as int)) <= u64::MAX {
                    reserved(self.entries@.subrange(0, i as int))
                } else {
                    u64::MAX as nat
                },
            decreases self.entries.len() - i,
        {
            let entry = &self.entries[i];
            assert(self.entries@.subrange(0, i + 1).drop_last() =~= self.entries@.subrange(
                0,
                i as int,
            ));
            if entry.residency.is_resident() {
                total = total.saturating_add(entry.memory_estimate_mib as u64);
            }
            i += 1;
        }
        assert(self.entries@.subrange(0, self.entries.len() as int) =~= self.entries@);
        total
    }

    /// The entry with this identifier, if the catalog carries one.
    pub fn entry(&self, id: &str) -> (r: Option<&Entry>)
        ensures
            match r {
                Some(e) => exists|at: int|
                    first_with_id(self.entries@, id@, at) && self.entries@[at] == *e,
                None => forall|j: int|
                    0 <= j < self.entries@.len() ==> self.entries@[j].id@ != id@,
            },
    {
        let wanted = chars_of(id);
        let mut i: usize = 0;
        while i < self.entries.len()
            invariant
                i <= self.entries.len(),
                wanted@ == id@,
                forall|j: int| 0 <= j < i ==> self.entries@[j].id@ != id@,
            decreases self.entries.len() - i,
        {
            if same(&chars_of(self.entries[i].id.as_str()), &wanted) {
                assert(first_with_id(self.entries@, id@, i as int));
                return Some(&self.entries[i]);
            }
            i += 1;
        }
        None
    }

    /// Where this entry's estimate came from, if the catalog carries it.
    pub fn estimate_source(&self, id: &str) -> (r: Option<EstimateSource>)
        ensures
            r == if exists|j: int| 0 <= j < self.entries@.len() && self.entries@[j].id@ == id@ {
                if names(self.derived@, id@) {
                    Some(EstimateSource::Derived)
                } else {
                    Some(EstimateSource::Declared)
                }
            } else {
                None
            },
    {
        match self.entry(id) {
            None => None,
            Some(_) => if named(&self.derived, id) {
                Some(EstimateSource::Derived)
            } else {
                Some(EstimateSource::Declared)
            },
        }
    }

    /// Whether this entry was found under the models root rather than
    /// written in the catalog.
    pub fn is_discovered(&self, id: &str) -> (b: bool)
        ensures
            b == names(self.discovered@, id@),
    {
        named(&self.discovered, id)
    }
}

} // verus!
