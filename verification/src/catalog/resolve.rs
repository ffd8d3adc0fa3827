//! Reading a catalog against the models root it will be served from.
//!
//! [`Catalog::parse`] reads the document and nothing else. This is the other
//! reading: the same document, plus what the root holds, so an estimate
//! nobody declared is derived from the files and every model file beside the
//! catalog's own becomes an entry too. What an operator should hear about a
//! reading -- an estimate declared below what its files suggest, a figure
//! that rests on size alone, a file that was discovered -- comes back as
//! notes rather than being printed here.

use vstd::prelude::*;

use super::discover::name::reserved_ids;
use super::discover::{made_as, references, under, walked, Walk};
use super::document::Table;
use super::estimate::{derivation, Basis, Disk};
use super::field::{problem, problem_text};
use super::flags::text_before;
use super::read::{
    defaults_of, drafts, entries_of, entry_scope, model_items, models_undeclared, models_yielding,
    walk_problems, Defaults,
};
use super::{ids, value_of_version, Catalog, Entry, Report};
use crate::text::{chars_of, decimal, decimal_string, push_string, strings};

verus! {

/// A catalog read against a models root, and what there is to say about it.
#[derive(Debug)]
pub struct Reading {
    pub catalog: Catalog,
    /// What an operator should hear, one line each, in the order found.
    pub notes: Vec<String>,
    /// How many entries the catalog text itself carries.
    pub declared: usize,
    /// The root the catalog was read against.
    pub root: String,
}

/// The note for an entry that declares less than its files suggest.
pub open spec fn low_note(id: Seq<char>, declared: u32, derived: u32) -> Seq<char> {
    entry_scope(id) + ": memory_estimate_mib is declared as "@ + decimal(declared as nat)
        + " MiB, but its files suggest "@ + decimal(derived as nat)
        + " MiB; keeping the declared value"@
}

/// The note for an estimate that rests on the size of the files alone.
pub open spec fn size_note(id: Seq<char>, derived: u32) -> Seq<char> {
    entry_scope(id) + ": memory estimate of "@ + decimal(derived as nat)
        + " MiB derived from file size alone, because the model file's metadata could not be read"@
}

/// The problem with an entry whose estimate could neither be read nor
/// derived.
pub open spec fn underived(id: Seq<char>, why: Seq<char>) -> Seq<char> {
    problem(entry_scope(id), "memory_estimate_mib"@, "is required, because it could not be derived: "@ + why)
}

/// What settling entries has produced: the entries kept, what to say of
/// them, what is wrong with them, and whose estimate was derived.
pub struct Ledger {
    pub kept: Seq<Entry>,
    pub notes: Seq<Seq<char>>,
    pub problems: Seq<Seq<char>>,
    pub derived: Seq<Seq<char>>,
}

/// What settling one more entry does to the ledger: a declared estimate
/// stands, with a note when the files suggest more; an undeclared one is
/// derived, or the entry is refused.
pub open spec fn settle_step(l: Ledger, e: Entry, declared: bool, root: Seq<char>, disk: Disk) -> Ledger {
    match derivation(e, root, disk) {
        Ok(d) => if declared {
            Ledger {
                kept: l.kept.push(e),
                notes: if d.mib > e.memory_estimate_mib {
                    l.notes.push(low_note(e.id@, e.memory_estimate_mib, d.mib))
                } else {
                    l.notes
                },
                ..l
            }
        } else {
            Ledger {
                kept: l.kept.push(Entry { memory_estimate_mib: d.mib, ..e }),
                notes: if d.basis == Basis::Size {
                    l.notes.push(size_note(e.id@, d.mib))
                } else {
                    l.notes
                },
                derived: l.derived.push(e.id@),
                ..l
            }
        },
        Err(why) => if declared {
            Ledger { kept: l.kept.push(e), ..l }
        } else {
            Ledger { problems: l.problems.push(underived(e.id@, why)), ..l }
        },
    }
}

/// What settling these entries produces, an entry being declared unless
/// named among the undeclared.
pub open spec fn settle_all(es: Seq<Entry>, undeclared: Seq<Seq<char>>, root: Seq<char>, disk: Disk) -> Ledger
    decreases es.len(),
{
    if es.len() == 0 {
        Ledger { kept: Seq::empty(), notes: Seq::empty(), problems: Seq::empty(), derived: Seq::empty() }
    } else {
        settle_step(
            settle_all(es.drop_last(), undeclared, root, disk),
            es.last(),
            !undeclared.contains(es.last().id@),
            root,
            disk,
        )
    }
}

/// An entry put among entries ordered by identifier: after every one whose
/// identifier does not come after its own.
pub open spec fn insert_by_id(s: Seq<Entry>, x: Entry) -> Seq<Entry>
    decreases s.len(),
{
    if s.len() == 0 {
        seq![x]
    } else if text_before(x.id@, s[0].id@) {
        seq![x] + s
    } else {
        seq![s[0]] + insert_by_id(s.drop_first(), x)
    }
}

/// Entries ordered by identifier; entries of the same identifier keep the
/// order they were in.
pub open spec fn by_id(s: Seq<Entry>) -> Seq<Entry>
    decreases s.len(),
{
    if s.len() == 0 {
        Seq::empty()
    } else {
        insert_by_id(by_id(s.drop_last()), s.last())
    }
}

/// Inserting where the identifiers say is the insertion the order defines.
proof fn lemma_insert_at(s: Seq<Entry>, x: Entry, p: int)
    requires
        0 <= p <= s.len(),
        forall|j: int| 0 <= j < p ==> !text_before(x.id@, #[trigger] s[j].id@),
        p == s.len() || text_before(x.id@, s[p].id@),
    ensures
        insert_by_id(s, x) == s.insert(p, x),
    decreases s.len(),
{
    if p == 0 {
        if s.len() == 0 {
            assert(s.insert(0, x) =~= seq![x]);
        } else {
            assert(s.insert(0, x) =~= seq![x] + s);
        }
    } else {
        let rest = s.drop_first();
        assert forall|j: int| 0 <= j < p - 1 implies !text_before(x.id@, #[trigger] rest[j].id@) by {
            assert(rest[j] == s[j + 1]);
        }
        assert(!text_before(x.id@, s[0].id@));
        lemma_insert_at(rest, x, p - 1);
        assert(seq![s[0]] + rest.insert(p - 1, x) =~= s.insert(p, x));
    }
}

/// Settling one entry adds to what the ledger held: what it keeps and what
/// is wrong with it come after what was there.
proof fn lemma_step_parts(l: Ledger, e: Entry, declared: bool, root: Seq<char>, disk: Disk)
    ensures
        ({
            let base = Ledger { kept: Seq::empty(), notes: l.notes, problems: Seq::empty(), derived: l.derived };
            let a = settle_step(l, e, declared, root, disk);
            let b = settle_step(base, e, declared, root, disk);
            &&& a.kept == l.kept + b.kept
            &&& a.notes == b.notes
            &&& a.derived == b.derived
            &&& a.problems == l.problems + b.problems
        }),
{
    let base = Ledger { kept: Seq::empty(), notes: l.notes, problems: Seq::empty(), derived: l.derived };
    let a = settle_step(l, e, declared, root, disk);
    let b = settle_step(base, e, declared, root, disk);
    assert(a.kept =~= l.kept + b.kept);
    assert(a.problems =~= l.problems + b.problems);
}

/// Ordering entries keeps how many there are.
pub proof fn lemma_by_id_len(s: Seq<Entry>)
    ensures
        by_id(s).len() == s.len(),
    decreases s.len(),
{
    if s.len() > 0 {
        lemma_by_id_len(s.drop_last());
        lemma_insert_len(by_id(s.drop_last()), s.last());
    }
}

/// An insertion adds one entry.
proof fn lemma_insert_len(s: Seq<Entry>, x: Entry)
    ensures
        insert_by_id(s, x).len() == s.len() + 1,
    decreases s.len(),
{
    if s.len() > 0 && !text_before(x.id@, s[0].id@) {
        lemma_insert_len(s.drop_first(), x);
    }
}

impl Reading {
    /// How many entries the catalog text itself carries.
    pub open spec fn declared_count(&self) -> usize {
        self.declared
    }

    /// The root the catalog was read against.
    pub open spec fn root_text(&self) -> Seq<char> {
        self.root@
    }

    /// Whether the count of declared entries is within the entries.
    pub open spec fn well_formed(&self) -> bool {
        self.declared <= self.catalog.entries@.len()
    }

    /// How many entries the catalog text itself carries.
    pub fn declared(&self) -> (n: usize)
        ensures
            n == self.declared_count(),
    {
        self.declared
    }

    /// How many entries were found under the root rather than in the text.
    pub fn discovered(&self) -> (n: usize)
        requires
            self.well_formed(),
        ensures
            n == self.catalog.entries@.len() - self.declared_count(),
    {
        self.catalog.entries.len() - self.declared
    }

    /// One line saying where the entries came from.
    pub fn summary(&self) -> (s: String)
        requires
            self.well_formed(),
        ensures
            s@ == decimal(self.declared_count() as nat) + " entries from the catalog, "@ + decimal(
                (self.catalog.entries@.len() - self.declared_count()) as nat,
            ) + " discovered under "@ + self.root_text(),
    {
        let mut s = decimal_string(self.declared() as u128);
        s.append(" entries from the catalog, ");
        s.append(decimal_string(self.discovered() as u128).as_str());
        s.append(" discovered under ");
        s.append(self.root.as_str());
        s
    }
}

/// Whether a list of names holds one.
fn listed(names: &Vec<String>, id: &String) -> (b: bool)
    ensures
        b == strings(names@).contains(id@),
{
    let wanted = chars_of(id.as_str());
    let mut i: usize = 0;
    while i < names.len()
        invariant
            i <= names.len(),
            wanted@ == id@,
            forall|k: int| 0 <= k < i ==> strings(names@)[k] != id@,
        decreases names.len() - i,
    {
        if crate::text::same(&chars_of(names[i].as_str()), &wanted) {
            assert(strings(names@)[i as int] == id@);
            return true;
        }
        i += 1;
    }
    false
}

/// One entry with its estimate settled, or `None` once its problem is on
/// the ledger.
fn settle(
    entry: Entry,
    declared: bool,
    root: &str,
    disk: &Disk,
    notes: &mut Vec<String>,
    problems: &mut Vec<String>,
    derived: &mut Vec<String>,
) -> (r: Option<Entry>)
    ensures
        ({
            let l = Ledger {
                kept: Seq::empty(),
                notes: strings(old(notes)@),
                problems: strings(old(problems)@),
                derived: strings(old(derived)@),
            };
            let after = settle_step(l, entry, declared, root@, *disk);
            &&& strings(final(notes)@) == after.notes
            &&& strings(final(problems)@) == after.problems
            &&& strings(final(derived)@) == after.derived
            &&& match r {
                Some(e) => after.kept == seq![e],
                None => after.kept.len() == 0,
            }
        }),
{
    let mut scope = String::from_str("entry '");
    scope.append(entry.id.as_str());
    scope.append("'");
    let found = super::estimate::derive(&entry, root, disk);
    if declared {
        match found {
            Ok(d) => if d.mib > entry.memory_estimate_mib {
                let mut note = String::from_str(scope.as_str());
                note.append(": memory_estimate_mib is declared as ");
                note.append(decimal_string(entry.memory_estimate_mib as u128).as_str());
                note.append(" MiB, but its files suggest ");
                note.append(decimal_string(d.mib as u128).as_str());
                note.append(" MiB; keeping the declared value");
                push_string(notes, note);
            },
            Err(_) => {},
        }
        return Some(entry);
    }
    match found {
        Ok(d) => {
            let mut entry = entry;
            entry.memory_estimate_mib = d.mib;
            match d.basis {
                Basis::Size => {
                    let mut note = String::from_str(scope.as_str());
                    note.append(": memory estimate of ");
                    note.append(decimal_string(d.mib as u128).as_str());
                    note.append(
                        " MiB derived from file size alone, because the model file's metadata could not be read",
                    );
                    push_string(notes, note);
                },
                Basis::Metadata => {},
            }
            push_string(derived, entry.id.clone());
            Some(entry)
        },
        Err(reason) => {
            let mut complaint = String::from_str("is required, because it could not be derived: ");
            complaint.append(reason.as_str());
            push_string(
                problems,
                problem_text(scope.as_str(), "memory_estimate_mib", complaint.as_str()),
            );
            None
        },
    }
}

/// Entries ordered by identifier, as a stable sort orders them.
fn sort_by_id(entries: Vec<Entry>) -> (r: Vec<Entry>)
    ensures
        r@ == by_id(entries@),
{
    let mut rest = entries;
    let ghost all = rest@;
    assert(all.len() == rest.len());
    let mut order: Vec<Entry> = Vec::new();
    let mut i: usize = 0;
    while rest.len() > 0
        invariant
            all.len() <= usize::MAX,
            i + rest@.len() == all.len(),
            rest@ == all.subrange(i as int, all.len() as int),
            order@ == by_id(all.subrange(0, i as int)),
        decreases rest.len(),
    {
        let e = rest.remove(0);
        let ghost prefix = all.subrange(0, i + 1);
        assert(prefix.drop_last() =~= all.subrange(0, i as int));
        assert(e == all[i as int]);
        let key = chars_of(e.id.as_str());
        let mut p: usize = 0;
        while p < order.len() && !super::flags::comes_before(&key, &chars_of(order[p].id.as_str()))
            invariant
                p <= order.len(),
                key@ == e.id@,
                forall|j: int| 0 <= j < p ==> !text_before(e.id@, #[trigger] order@[j].id@),
            decreases order.len() - p,
        {
            p += 1;
        }
        let ghost before = order@;
        proof {
            lemma_insert_at(before, e, p as int);
        }
        order.insert(p, e);
        i += 1;
        assert(rest@ =~= all.subrange(i as int, all.len() as int));
    }
    assert(all.subrange(0, all.len() as int) =~= all);
    order
}

/// What walking the root finds beside the entries kept: every model file
/// they do not name, under an identifier none of them has taken.
pub open spec fn found_under(kept: Seq<Entry>, root: Seq<char>, d: Defaults, disk: Disk) -> Walk {
    walked(
        disk.walked@,
        Walk { taken: ids(kept) + reserved_ids(), notes: Seq::empty(), made: Seq::empty() },
        root,
        references(kept, root),
        d,
        disk,
    )
}

/// What reading a document against a root gives, where `d` is how its
/// defaults read and `es` the entries its models make before settling.
pub open spec fn read_outcome(
    document: Table,
    root: Seq<char>,
    disk: Disk,
    d: Defaults,
    es: Seq<Entry>,
    r: Result<Reading, Report>,
) -> bool {
    &&& defaults_of(document, d)
    &&& entries_of(es, models_yielding(model_items(document), d), d)
    &&& ({
        let l = settle_all(es, models_undeclared(model_items(document), d), root, disk);
        let problems = walk_problems(document, d) + l.problems;
        match r {
            Ok(reading) => {
                &&& problems.len() == 0
                &&& reading.catalog.version == match value_of_version(document) {
                    Some(v) => v,
                    None => 0,
                }
                &&& exists|found: Seq<Entry>|
                    {
                        &&& #[trigger] made_as(found, found_under(l.kept, root, d, disk).made, d)
                        &&& reading.catalog.entries@ == by_id(l.kept + found)
                        &&& strings(reading.catalog.derived@) == l.derived + ids(found)
                        &&& strings(reading.catalog.discovered@) == ids(found)
                        &&& strings(reading.notes@) == l.notes + found_under(l.kept, root, d, disk).notes
                    }
                &&& reading.declared_count() == l.kept.len()
                &&& reading.root_text() == root
                &&& reading.well_formed()
            },
            Err(report) => {
                &&& problems.len() > 0
                &&& strings(report.problems@) == problems
            },
        }
    })
}

/// The entries kept and every model file beside them under the root, in
/// order by identifier; the identifiers discovered, each also one whose
/// estimate was derived; and what was noted of each file.
fn beside(
    kept: Vec<Entry>,
    root: &str,
    defaults: &Defaults,
    disk: &Disk,
    notes: &mut Vec<String>,
    derived: &mut Vec<String>,
) -> (r: (Vec<Entry>, Vec<String>))
    ensures
        exists|found: Seq<Entry>|
            {
                &&& #[trigger] made_as(found, found_under(kept@, root@, *defaults, *disk).made, *defaults)
                &&& r.0@ == by_id(kept@ + found)
                &&& strings(final(derived)@) == strings(old(derived)@) + ids(found)
                &&& strings(r.1@) == ids(found)
                &&& strings(final(notes)@) == strings(old(notes)@) + found_under(
                    kept@,
                    root@,
                    *defaults,
                    *disk,
                ).notes
            },
        r.0@.len() >= kept@.len(),
{
    let ghost n_before = strings(notes@);
    let found = under(root, &kept, defaults, disk, notes);
    let ghost made = found@;
    assert(strings(notes@) == n_before + found_under(kept@, root@, *defaults, *disk).notes);
    let ghost d_before = strings(derived@);
    let mut discovered: Vec<String> = Vec::new();
    let mut j: usize = 0;
    assert(strings(discovered@) =~= Seq::<Seq<char>>::empty());
    assert(d_before + Seq::<Seq<char>>::empty() =~= d_before);
    while j < found.len()
        invariant
            j <= found.len(),
            found@ == made,
            strings(discovered@) == ids(made.subrange(0, j as int)),
            strings(derived@) == d_before + ids(made.subrange(0, j as int)),
        decreases found.len() - j,
    {
        push_string(&mut discovered, found[j].id.clone());
        push_string(derived, found[j].id.clone());
        j += 1;
        assert(ids(made.subrange(0, j as int)) =~= ids(made.subrange(0, j - 1)).push(made[j - 1].id@));
        assert(strings(discovered@) =~= ids(made.subrange(0, j as int)));
        assert(strings(derived@) =~= d_before + ids(made.subrange(0, j as int)));
    }
    assert(made.subrange(0, made.len() as int) =~= made);
    let ghost settled = kept@;
    let mut all = kept;
    let mut rest = found;
    let n = rest.len();
    let mut k: usize = 0;
    assert(settled + made.subrange(0, 0) =~= settled);
    while rest.len() > 0
        invariant
            k <= n,
            n == made.len(),
            k + rest@.len() == n,
            rest@ == made.subrange(k as int, n as int),
            all@ == settled + made.subrange(0, k as int),
        decreases rest.len(),
    {
        let e = rest.remove(0);
        all.push(e);
        k += 1;
        assert(all@ =~= settled + made.subrange(0, k as int));
        assert(rest@ =~= made.subrange(k as int, n as int));
    }
    assert(made.subrange(0, n as int) =~= made);
    assert(all@ == settled + made);
    proof {
        lemma_by_id_len(all@);
    }
    let entries = sort_by_id(all);
    assert(made_as(made, found_under(settled, root@, *defaults, *disk).made, *defaults));
    (entries, discovered)
}

impl Catalog {
    /// Reads a catalog against what a models root holds.
    ///
    /// Every entry without a declared estimate gets one derived from its
    /// files; an entry declaring one below what its files suggest keeps it
    /// and is named in the notes; and every model file under the root that
    /// no entry names becomes an entry of its own, with its estimate derived.
    ///
    /// # Errors
    ///
    /// Returns a [`Report`] naming every problem, as [`Catalog::parse`] does,
    /// plus one for each entry whose estimate could neither be read nor
    /// derived because its model file is not there.
    pub fn read(document: &Table, root: &str, disk: &Disk) -> (r: Result<Reading, Report>)
        ensures
            exists|d: Defaults, es: Seq<Entry>| #[trigger] read_outcome(*document, root@, *disk, d, es, r),
    {
        let drafts = drafts(document);
        let super::read::Drafts { version, defaults, entries, undeclared, mut problems } = drafts;
        let ghost d = defaults;
        let ghost es = entries@;
        assert(es.len() == entries.len());
        let ghost gone = strings(undeclared@);
        let ghost walked = strings(problems@);
        let mut notes: Vec<String> = Vec::new();
        let mut derived: Vec<String> = Vec::new();
        let mut kept: Vec<Entry> = Vec::new();
        let mut rest = entries;
        let mut i: usize = 0;
        assert(strings(notes@) =~= Seq::<Seq<char>>::empty());
        assert(strings(derived@) =~= Seq::<Seq<char>>::empty());
        assert(walked + Seq::<Seq<char>>::empty() =~= walked);
        while rest.len() > 0
            invariant
                es.len() <= usize::MAX,
                i + rest@.len() == es.len(),
                rest@ == es.subrange(i as int, es.len() as int),
                strings(undeclared@) == gone,
                ({
                    let l = settle_all(es.subrange(0, i as int), gone, root@, *disk);
                    &&& kept@ == l.kept
                    &&& strings(notes@) == l.notes
                    &&& strings(problems@) == walked + l.problems
                    &&& strings(derived@) == l.derived
                }),
            decreases rest.len(),
        {
            let e = rest.remove(0);
            let ghost prefix = es.subrange(0, i + 1);
            assert(prefix.drop_last() =~= es.subrange(0, i as int));
            assert(e == es[i as int]);
            let ghost l = settle_all(es.subrange(0, i as int), gone, root@, *disk);
            let declared = !listed(&undeclared, &e.id);
            let ghost p_before = strings(problems@);
            let mut fresh: Vec<String> = Vec::new();
            assert(strings(fresh@) =~= Seq::<Seq<char>>::empty());
            let ghost ge = e;
            let ghost step = settle_step(
                Ledger { kept: Seq::empty(), notes: l.notes, problems: Seq::empty(), derived: l.derived },
                ge,
                declared,
                root@,
                *disk,
            );
            match settle(e, declared, root, disk, &mut notes, &mut fresh, &mut derived) {
                Some(s) => {
                    kept.push(s);
                },
                None => {},
            }
            let mut k: usize = 0;
            let ghost fresh_all = strings(fresh@);
            while k < fresh.len()
                invariant
                    k <= fresh.len(),
                    strings(fresh@) == fresh_all,
                    strings(problems@) == p_before + fresh_all.subrange(0, k as int),
                decreases fresh.len() - k,
            {
                push_string(&mut problems, fresh[k].clone());
                k += 1;
                assert(strings(problems@) =~= p_before + fresh_all.subrange(0, k as int));
            }
            assert(fresh_all.subrange(0, fresh_all.len() as int) =~= fresh_all);
            proof {
                lemma_step_parts(l, ge, declared, root@, *disk);
                let next = settle_all(es.subrange(0, i + 1), gone, root@, *disk);
                assert(next == settle_step(l, ge, declared, root@, *disk));
                assert(kept@ =~= next.kept);
                assert(strings(problems@) =~= walked + next.problems);
            }
            i += 1;
            assert(rest@ =~= es.subrange(i as int, es.len() as int));
        }
        assert(es.subrange(0, es.len() as int) =~= es);
        if problems.len() > 0 {
            let r = Err(Report { problems });
            assert(read_outcome(*document, root@, *disk, d, es, r));
            return r;
        }
        let declared = kept.len();
        let ghost kept_view = kept@;
        let (entries, discovered) = beside(kept, root, &defaults, disk, &mut notes, &mut derived);
        let r = Ok(
            Reading {
                catalog: Catalog {
                    version: match version {
                        Some(v) => v,
                        None => 0,
                    },
                    entries,
                    derived,
                    discovered,
                },
                notes,
                declared,
                root: String::from_str(root),
            },
        );
        assert(read_outcome(*document, root@, *disk, d, es, r));
        r
    }
}

} // verus!
