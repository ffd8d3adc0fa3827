//! What every reading of a catalog keeps, and what every parsed catalog
//! holds.
//!
//! Each law is stated over the spec functions that [`Catalog::parse`],
//! [`Catalog::read`], [`derive`](super::estimate::derive) and
//! [`under`](super::discover::under) are proved to compute, so each holds of
//! every reading.
//!
//! [`Catalog::parse`]: super::Catalog::parse
//! [`Catalog::read`]: super::Catalog::read

use vstd::prelude::*;

use super::discover::{walk_step, walked, Found, Walk};
use super::discover::name::identified;
use super::estimate::{bytes_of, derivation_of, mib_of, side_weights, weights_at, Disk, OVERHEAD_BYTES, MIB};
use super::flags::{lemma_before_irreflexive, lemma_before_total, lemma_before_transitive, text_before, Flags};
use super::path::joined;
use super::read::Defaults;
use super::discover::made_as;
use super::discover::name::reserved_ids;
use super::document::{keys_ascending, Table};
use super::resolve::{by_id, found_under, insert_by_id, read_outcome, settle_all, Reading};
use super::{ids, ids_ascending, lemma_entries_in_key_order, reserved, Report, Residency};
use super::resolve::lemma_by_id_len;
use super::read::{
    defaults_of, entries_of, entry_problems, model_items, models_fold_problems, models_undeclared,
    models_yielding, walk_problems, yields_entry,
};
use super::field::flags_value;
use super::document::Item;
use super::{parse_problems, parsed_as, settings_positive, Catalog};
use crate::text::strings;
use super::Entry;

verus! {

/// Whether entries are ordered by identifier: none comes after one it
/// follows.
pub open spec fn ordered_by_id(s: Seq<Entry>) -> bool {
    forall|i: int, j: int| 0 <= i < j < s.len() ==> !text_before(#[trigger] s[j].id@, #[trigger] s[i].id@)
}

/// What an insertion holds: what was there, and the entry put in.
proof fn lemma_insert_holds(s: Seq<Entry>, x: Entry)
    ensures
        insert_by_id(s, x).len() == s.len() + 1,
        forall|k: int| 0 <= k < insert_by_id(s, x).len() ==> (#[trigger] insert_by_id(s, x)[k] == x
            || s.contains(insert_by_id(s, x)[k])),
    decreases s.len(),
{
    if s.len() == 0 {
    } else if text_before(x.id@, s[0].id@) {
        let r = seq![x] + s;
        assert forall|k: int| 0 <= k < r.len() implies (#[trigger] r[k] == x || s.contains(r[k])) by {
            if k > 0 {
                assert(r[k] == s[k - 1]);
            }
        }
    } else {
        let rest = s.drop_first();
        lemma_insert_holds(rest, x);
        let inner = insert_by_id(rest, x);
        let r = seq![s[0]] + inner;
        assert forall|k: int| 0 <= k < r.len() implies (#[trigger] r[k] == x || s.contains(r[k])) by {
            if k == 0 {
                assert(s[0] == r[0]);
            } else {
                assert(r[k] == inner[k - 1]);
                if inner[k - 1] != x {
                    let w = choose|m: int| 0 <= m < rest.len() && rest[m] == inner[k - 1];
                    assert(s[w + 1] == rest[w]);
                }
            }
        }
    }
}

/// Putting an entry into ordered entries keeps them ordered.
proof fn lemma_insert_ordered(s: Seq<Entry>, x: Entry)
    requires
        ordered_by_id(s),
    ensures
        ordered_by_id(insert_by_id(s, x)),
    decreases s.len(),
{
    if s.len() == 0 {
    } else if text_before(x.id@, s[0].id@) {
        let r = seq![x] + s;
        assert forall|i: int, j: int| 0 <= i < j < r.len() implies !text_before(#[trigger] r[j].id@, #[trigger] r[i].id@) by {
            if i > 0 {
                assert(r[i] == s[i - 1] && r[j] == s[j - 1]);
            } else {
                assert(r[j] == s[j - 1]);
                if text_before(s[j - 1].id@, x.id@) {
                    lemma_before_transitive(s[j - 1].id@, x.id@, s[0].id@);
                    if j - 1 == 0 {
                        lemma_before_irreflexive(s[0].id@);
                    }
                }
            }
        }
    } else {
        let rest = s.drop_first();
        assert(ordered_by_id(rest)) by {
            assert forall|i: int, j: int| 0 <= i < j < rest.len() implies !text_before(#[trigger] rest[j].id@, #[trigger] rest[i].id@) by {
                assert(rest[i] == s[i + 1] && rest[j] == s[j + 1]);
            }
        }
        lemma_insert_ordered(rest, x);
        lemma_insert_holds(rest, x);
        let inner = insert_by_id(rest, x);
        let r = seq![s[0]] + inner;
        assert forall|i: int, j: int| 0 <= i < j < r.len() implies !text_before(#[trigger] r[j].id@, #[trigger] r[i].id@) by {
            if i > 0 {
                assert(r[i] == inner[i - 1] && r[j] == inner[j - 1]);
            } else {
                assert(r[j] == inner[j - 1]);
                if inner[j - 1] != x {
                    let w = choose|m: int| 0 <= m < rest.len() && rest[m] == inner[j - 1];
                    assert(s[w + 1] == rest[w]);
                } else {
                    if text_before(x.id@, s[0].id@) {
                    }
                }
            }
        }
    }
}

/// Entries a reading orders are ordered.
pub proof fn lemma_by_id_ordered(s: Seq<Entry>)
    ensures
        ordered_by_id(by_id(s)),
    decreases s.len(),
{
    if s.len() > 0 {
        lemma_by_id_ordered(s.drop_last());
        lemma_insert_ordered(by_id(s.drop_last()), s.last());
    }
}

/// The entries of every reading come ordered by identifier, whatever order
/// the catalog wrote them in, so two readings of one catalog agree.
pub proof fn law_read_orders_by_id(kept: Seq<Entry>)
    ensures
        ordered_by_id(by_id(kept)),
{
    lemma_by_id_ordered(kept);
}

/// Rounding to mebibytes never lowers a larger figure below a smaller one's.
proof fn lemma_mib_monotone(a: nat, b: nat)
    requires
        a <= b,
    ensures
        mib_of(a) <= mib_of(b),
{
    assert((a + MIB - 1) / (MIB as int) <= (b + MIB - 1) / (MIB as int)) by (nonlinear_arith)
        requires
            a <= b,
            MIB == 1048576,
    ;
}

/// An estimate derived from the files never falls below what those files
/// weigh with the fixed overhead on top: every term errs high.
pub proof fn law_estimate_covers_weights(
    path: Seq<char>,
    draft: Option<Seq<char>>,
    projector: Option<Seq<char>>,
    context: nat,
    flags: Flags,
    root: Seq<char>,
    disk: Disk,
)
    ensures
        match derivation_of(path, draft, projector, context, flags, root, disk) {
            Ok(d) => {
                let w = weights_at(disk, joined(root, path))->0 + side_weights(draft, projector, root, disk);
                d.mib >= mib_of(w + OVERHEAD_BYTES as nat)
            },
            Err(_) => weights_at(disk, joined(root, path)) is None,
        },
{
    if let Ok(d) = derivation_of(path, draft, projector, context, flags, root, disk) {
        let w = weights_at(disk, joined(root, path))->0 + side_weights(draft, projector, root, disk);
        let mc = super::estimate::model_cache(path, context, flags, root, disk);
        let dc = super::estimate::draft_cache(draft, context, flags, root, disk);
        lemma_mib_monotone(w + OVERHEAD_BYTES as nat, bytes_of(w, mc, dc).0);
    }
}

/// The names a walk has handed out since its start.
pub open spec fn given_out(w: Walk, start: Walk) -> Seq<Seq<char>> {
    w.taken.subrange(start.taken.len() as int, w.taken.len() as int)
}

/// What the walk keeps of the names it hands out: every identifier made is
/// among the names taken after the start, none was taken at the start, and
/// no two are the same.
pub open spec fn fresh_names(w: Walk, start: Walk) -> bool {
    &&& w.taken.len() >= start.taken.len()
    &&& w.taken.subrange(0, start.taken.len() as int) == start.taken
    &&& forall|i: int, j: int|
        start.taken.len() <= i < j < w.taken.len() ==> #[trigger] w.taken[i] != #[trigger] w.taken[j]
    &&& forall|i: int, j: int|
        0 <= i < start.taken.len() <= j < w.taken.len() ==> #[trigger] w.taken[i] != #[trigger] w.taken[j]
    &&& forall|k: int| 0 <= k < w.made.len() ==> given_out(w, start).contains(#[trigger] w.made[k].0)
    &&& forall|k: int, l: int| 0 <= k < l < w.made.len() ==> (#[trigger] w.made[k]).0 != (#[trigger] w.made[l]).0
}

/// One file keeps the names fresh.
proof fn lemma_step_fresh(w: Walk, start: Walk, f: Found, root: Seq<char>, referenced: Seq<Seq<char>>, d: Defaults, disk: Disk)
    requires
        fresh_names(w, start),
        start.made.len() == 0,
    ensures
        fresh_names(walk_step(w, f, root, referenced, d, disk), start),
{
    let n = walk_step(w, f, root, referenced, d, disk);
    if n.taken != w.taken {
        // A name was handed out: the one `identified` chose, which was free.
        let path = joined(root, f->Located_0@);
        let x = identified(path, w.taken).0->0;
        assert(n.taken == w.taken.push(x));
        assert(!w.taken.contains(x));
        assert(n.taken.subrange(0, start.taken.len() as int) =~= w.taken.subrange(0, start.taken.len() as int));
        assert forall|i: int, j: int| start.taken.len() <= i < j < n.taken.len() implies #[trigger] n.taken[i] != #[trigger] n.taken[j] by {
            if j == w.taken.len() {
                assert(n.taken[i] == w.taken[i]);
            }
        }
        assert forall|i: int, j: int| 0 <= i < start.taken.len() <= j < n.taken.len() implies #[trigger] n.taken[i] != #[trigger] n.taken[j] by {
            if j == w.taken.len() {
                assert(n.taken[i] == w.taken[i]);
            }
        }
        assert(given_out(n, start) =~= given_out(w, start).push(x));
        assert forall|k: int| 0 <= k < n.made.len() implies given_out(n, start).contains(#[trigger] n.made[k].0) by {
            if k < w.made.len() {
                assert(n.made[k] == w.made[k]);
                assert(given_out(w, start).contains(w.made[k].0));
                let i = choose|i: int| 0 <= i < given_out(w, start).len() && given_out(w, start)[i] == w.made[k].0;
                assert(given_out(n, start)[i] == given_out(w, start)[i]);
            } else {
                assert(n.made[k].0 == x);
                assert(given_out(n, start)[given_out(w, start).len() as int] == x);
            }
        }
        assert forall|k: int, l: int| 0 <= k < l < n.made.len() implies (#[trigger] n.made[k]).0 != (#[trigger] n.made[l]).0 by {
            if l >= w.made.len() {
                assert(n.made[k] == w.made[k]);
                assert(given_out(w, start).contains(w.made[k].0));
                let i = choose|i: int| 0 <= i < given_out(w, start).len() && given_out(w, start)[i] == w.made[k].0;
                assert(w.taken[i + start.taken.len()] == given_out(w, start)[i]);
            } else {
                assert(n.made[k] == w.made[k] && n.made[l] == w.made[l]);
            }
        }
        assert(fresh_names(n, start));
    } else {
        assert(n.made == w.made);
        assert(fresh_names(n, start));
    }
}

/// Every identifier discovery hands out is one that no catalog entry and no
/// path of the router's own already had, and no two discovered entries share
/// one.
pub proof fn law_discovered_names_are_fresh(
    fs: Seq<Found>,
    start: Walk,
    root: Seq<char>,
    referenced: Seq<Seq<char>>,
    d: Defaults,
    disk: Disk,
)
    requires
        start.made.len() == 0,
    ensures
        ({
            let w = walked(fs, start, root, referenced, d, disk);
            &&& forall|k: int| 0 <= k < w.made.len() ==> !start.taken.contains(#[trigger] w.made[k].0)
            &&& forall|k: int, l: int| 0 <= k < l < w.made.len() ==> (#[trigger] w.made[k]).0 != (#[trigger] w.made[l]).0
        }),
    decreases fs.len(),
{
    lemma_walk_fresh(fs, start, root, referenced, d, disk);
    let w = walked(fs, start, root, referenced, d, disk);
    assert forall|k: int| 0 <= k < w.made.len() implies !start.taken.contains(#[trigger] w.made[k].0) by {
        assert(given_out(w, start).contains(w.made[k].0));
        let i = choose|i: int| 0 <= i < given_out(w, start).len() && given_out(w, start)[i] == w.made[k].0;
        assert(w.taken[i + start.taken.len()] == given_out(w, start)[i]);
        if start.taken.contains(w.made[k].0) {
            let j = choose|j: int| 0 <= j < start.taken.len() && start.taken[j] == w.made[k].0;
            assert(w.taken.subrange(0, start.taken.len() as int)[j] == start.taken[j]);
            assert(w.taken[j] == start.taken[j]);
        }
    }
}

/// Walking any files keeps the names fresh.
proof fn lemma_walk_fresh(fs: Seq<Found>, start: Walk, root: Seq<char>, referenced: Seq<Seq<char>>, d: Defaults, disk: Disk)
    requires
        start.made.len() == 0,
    ensures
        fresh_names(walked(fs, start, root, referenced, d, disk), start),
    decreases fs.len(),
{
    if fs.len() == 0 {
        assert(start.taken.subrange(0, start.taken.len() as int) =~= start.taken);
    } else {
        lemma_walk_fresh(fs.drop_last(), start, root, referenced, d, disk);
        lemma_step_fresh(walked(fs.drop_last(), start, root, referenced, d, disk), start, fs.last(), root, referenced, d, disk);
    }
}

/// Names held at most once each.
pub open spec fn once_each(s: Seq<Seq<char>>) -> bool {
    forall|i: int, j: int| 0 <= i < j < s.len() ==> s[i] != s[j]
}

/// Settling entries in order of identifier keeps what it keeps, and names
/// what it derives, in that order, from among the entries; it derives only
/// for entries it keeps.
proof fn lemma_settle_order(es: Seq<Entry>, undeclared: Seq<Seq<char>>, root: Seq<char>, disk: Disk)
    requires
        ids_ascending(es),
    ensures
        ({
            let l = settle_all(es, undeclared, root, disk);
            &&& ids_ascending(l.kept)
            &&& forall|i: int, j: int| 0 <= i < j < l.derived.len() ==> text_before(#[trigger] l.derived[i], #[trigger] l.derived[j])
            &&& forall|k: int| 0 <= k < l.derived.len() ==> ids(l.kept).contains(#[trigger] l.derived[k])
            &&& forall|k: int| 0 <= k < l.kept.len() ==> ids(es).contains(#[trigger] l.kept[k].id@)
        }),
    decreases es.len(),
{
    if es.len() > 0 {
        let rest = es.drop_last();
        let e = es.last();
        assert forall|i: int, j: int| 0 <= i < j < rest.len() implies text_before(#[trigger] rest[i].id@, #[trigger] rest[j].id@) by {
            assert(rest[i] == es[i] && rest[j] == es[j]);
        }
        lemma_settle_order(rest, undeclared, root, disk);
        let l0 = settle_all(rest, undeclared, root, disk);
        let l = settle_all(es, undeclared, root, disk);
        assert(l == super::resolve::settle_step(l0, e, !undeclared.contains(e.id@), root, disk));
        // Everything settled before comes before the last entry.
        assert forall|k: int| 0 <= k < l0.kept.len() implies text_before(#[trigger] l0.kept[k].id@, e.id@) by {
            assert(ids(rest).contains(l0.kept[k].id@));
            let i = choose|i: int| 0 <= i < ids(rest).len() && ids(rest)[i] == l0.kept[k].id@;
            assert(ids(rest)[i] == rest[i].id@);
            assert(es[i] == rest[i]);
            assert(es[es.len() - 1] == e);
        }
        assert forall|k: int| 0 <= k < l0.derived.len() implies text_before(#[trigger] l0.derived[k], e.id@) by {
            assert(ids(l0.kept).contains(l0.derived[k]));
            let i = choose|i: int| 0 <= i < ids(l0.kept).len() && ids(l0.kept)[i] == l0.derived[k];
            assert(ids(l0.kept)[i] == l0.kept[i].id@);
        }
        assert(l.kept.len() == l0.kept.len() || l.kept.len() == l0.kept.len() + 1);
        assert forall|k: int| 0 <= k < l.kept.len() implies ids(es).contains(#[trigger] l.kept[k].id@) && (k < l0.kept.len() ==> l.kept[k] == l0.kept[k]) && (k == l0.kept.len() ==> l.kept[k].id@ == e.id@) by {
            if k < l0.kept.len() {
                assert(ids(rest).contains(l0.kept[k].id@));
                let i = choose|i: int| 0 <= i < ids(rest).len() && ids(rest)[i] == l0.kept[k].id@;
                assert(ids(es)[i] == ids(rest)[i]);
            } else {
                assert(ids(es)[es.len() - 1] == e.id@);
            }
        }
        assert forall|i: int, j: int| 0 <= i < j < l.kept.len() implies text_before(#[trigger] l.kept[i].id@, #[trigger] l.kept[j].id@) by {
            if j == l0.kept.len() {
                assert(l.kept[i] == l0.kept[i]);
            } else {
                assert(l.kept[i] == l0.kept[i] && l.kept[j] == l0.kept[j]);
            }
        }
        assert forall|i: int, j: int| 0 <= i < j < l.derived.len() implies text_before(#[trigger] l.derived[i], #[trigger] l.derived[j]) by {
            if j == l0.derived.len() {
                assert(l.derived[i] == l0.derived[i]);
                assert(l.derived[j] == e.id@);
            } else {
                assert(l.derived[i] == l0.derived[i] && l.derived[j] == l0.derived[j]);
            }
        }
        assert forall|k: int| 0 <= k < l.derived.len() implies ids(l.kept).contains(#[trigger] l.derived[k]) by {
            if k < l0.derived.len() {
                assert(l.derived[k] == l0.derived[k]);
                assert(ids(l0.kept).contains(l0.derived[k]));
                let i = choose|i: int| 0 <= i < ids(l0.kept).len() && ids(l0.kept)[i] == l0.derived[k];
                assert(ids(l.kept)[i] == ids(l0.kept)[i]);
            } else {
                assert(l.kept.len() == l0.kept.len() + 1);
                assert(ids(l.kept)[l0.kept.len() as int] == e.id@);
            }
        }
    }
}

/// A reading names each entry it derived an estimate for once, and each
/// entry it discovered once, when the catalog's models table keeps its keys
/// in order, as a TOML table is read.
pub proof fn law_read_names_once(
    document: Table,
    root: Seq<char>,
    disk: Disk,
    d: Defaults,
    es: Seq<Entry>,
    reading: Reading,
)
    requires
        read_outcome(document, root, disk, d, es, Ok::<Reading, Report>(reading)),
        keys_ascending(super::read::model_items(document)),
    ensures
        once_each(strings(reading.catalog.derived@)),
        once_each(strings(reading.catalog.discovered@)),
{
    let items = super::read::model_items(document);
    lemma_entries_in_key_order(document, d, es);
    let l = settle_all(es, super::read::models_undeclared(items, d), root, disk);
    lemma_settle_order(es, super::read::models_undeclared(items, d), root, disk);
    let w = found_under(l.kept, root, d, disk);
    let start = Walk { taken: ids(l.kept) + reserved_ids(), notes: Seq::empty(), made: Seq::empty() };
    law_discovered_names_are_fresh(disk.walked@, start, root, super::discover::references(l.kept, root), d, disk);
    let found = choose|found: Seq<Entry>|
        {
            &&& #[trigger] made_as(found, w.made, d)
            &&& reading.catalog.entries@ == by_id(l.kept + found)
            &&& strings(reading.catalog.derived@) == l.derived + ids(found)
            &&& strings(reading.catalog.discovered@) == ids(found)
            &&& strings(reading.notes@) == l.notes + w.notes
        };
    assert forall|k: int| 0 <= k < found.len() implies #[trigger] ids(found)[k] == w.made[k].0 by {
        assert(super::discover::discovered_as(found[k], w.made[k].0, w.made[k].1, d, w.made[k].2));
    }
    let dv = strings(reading.catalog.derived@);
    assert forall|i: int, j: int| 0 <= i < j < dv.len() implies dv[i] != dv[j] by {
        if j < l.derived.len() {
            lemma_before_irreflexive(l.derived[i]);
            assert(text_before(l.derived[i], l.derived[j]));
        } else if i < l.derived.len() {
            let k = j - l.derived.len();
            assert(dv[j] == w.made[k].0);
            assert(ids(l.kept).contains(l.derived[i]));
            assert(!start.taken.contains(w.made[k].0));
            let x = choose|x: int| 0 <= x < ids(l.kept).len() && ids(l.kept)[x] == l.derived[i];
            assert(start.taken[x] == ids(l.kept)[x]);
        } else {
            assert(dv[i] == w.made[i - l.derived.len()].0);
            assert(dv[j] == w.made[j - l.derived.len()].0);
        }
    }
    let ds = strings(reading.catalog.discovered@);
    assert forall|i: int, j: int| 0 <= i < j < ds.len() implies ds[i] != ds[j] by {
        assert(ds[i] == w.made[i].0 && ds[j] == w.made[j].0);
    }
}

/// What the residents reserve is at most what each entry may cost, summed
/// over the entries.
proof fn lemma_reserved_bound(entries: Seq<Entry>)
    ensures
        reserved(entries) <= entries.len() * (u32::MAX as nat),
    decreases entries.len(),
{
    if entries.len() > 0 {
        let rest = entries.drop_last();
        lemma_reserved_bound(rest);
        let n = rest.len();
        assert(n * (u32::MAX as nat) + (u32::MAX as nat) == (n + 1) * (u32::MAX as nat)) by (nonlinear_arith);
    }
}

/// What the resident entries reserve is the plain sum of their estimates,
/// and it fits a `u64` for any catalog of up to 2^32 entries, so
/// [`resident_reservation_mib`](super::Catalog::resident_reservation_mib)
/// gives that sum and is never held; an entry loaded on demand adds nothing
/// to it, a resident one adds its estimate.
pub proof fn law_reservation_is_the_sum(entries: Seq<Entry>, e: Entry)
    requires
        entries.len() <= 0x1_0000_0000,
    ensures
        reserved(entries) <= u64::MAX,
        e.residency == Residency::OnDemand ==> reserved(entries.push(e)) == reserved(entries),
        e.residency == Residency::Resident ==> reserved(entries.push(e)) == reserved(entries)
            + e.memory_estimate_mib,
{
    lemma_reserved_bound(entries);
    let n = entries.len();
    assert(n * (u32::MAX as nat) <= 0x1_0000_0000 * (u32::MAX as nat)) by (nonlinear_arith)
        requires n <= 0x1_0000_0000;
    assert(entries.push(e).drop_last() =~= entries);
}

/// A reading's entries are those its text declared and kept and those found
/// under the root, each counted once: the declared count and the discovered
/// names together number every entry, and the declared count is what the
/// text's models kept after settling their estimates.
pub proof fn law_reading_counts(
    document: Table,
    root: Seq<char>,
    disk: Disk,
    d: Defaults,
    es: Seq<Entry>,
    reading: Reading,
)
    requires
        read_outcome(document, root, disk, d, es, Ok::<Reading, Report>(reading)),
    ensures
        reading.well_formed(),
        reading.declared_count() == settle_all(es, models_undeclared(model_items(document), d), root, disk).kept.len(),
        reading.declared_count() + reading.catalog.discovered@.len() == reading.catalog.entries@.len(),
        reading.catalog.entries@.len() - reading.declared_count() == reading.catalog.discovered@.len(),
{
    let l = settle_all(es, models_undeclared(model_items(document), d), root, disk);
    let w = found_under(l.kept, root, d, disk);
    let found = choose|found: Seq<Entry>|
        {
            &&& #[trigger] made_as(found, w.made, d)
            &&& reading.catalog.entries@ == by_id(l.kept + found)
            &&& strings(reading.catalog.derived@) == l.derived + ids(found)
            &&& strings(reading.catalog.discovered@) == ids(found)
            &&& strings(reading.notes@) == l.notes + w.notes
        };
    lemma_by_id_len(l.kept + found);
    assert(strings(reading.catalog.discovered@).len() == reading.catalog.discovered@.len());
    assert(ids(found).len() == found.len());
}

/// A model whose value reads without a problem makes an entry.
proof fn lemma_clean_model_yields(id: Seq<char>, item: Item, d: Defaults)
    requires
        entry_problems(id, item, d).len() == 0,
    ensures
        yields_entry(item, d),
{
    match item {
        Item::Table(t) => {
            let s = super::read::entry_scope(id);
            let loc = super::read::location_problems(t, s);
            let ctx = super::read::context_problems(t, d, s);
            assert(loc.len() == 0 && ctx.len() == 0);
            assert(super::document::item_at(t, "path"@) is Some);
            assert(super::field::complaints(super::field::location_reading(t, "path"@), s, "path"@).len() == 0);
            assert(super::field::complaints(super::field::positive_reading(t, "context_size"@), s, "context_size"@).len() == 0);
        },
        _ => {
            assert(entry_problems(id, item, d).len() == 1);
        },
    }
}

/// Models that all read without a problem all make entries.
proof fn lemma_clean_models_all_yield(es: Seq<(String, Item)>, d: Defaults)
    requires
        models_fold_problems(es, d).len() == 0,
    ensures
        models_yielding(es, d) == es,
    decreases es.len(),
{
    if es.len() > 0 {
        lemma_clean_models_all_yield(es.drop_last(), d);
        lemma_clean_model_yields(es.last().0@, es.last().1, d);
        assert(es.drop_last().push(es.last()) =~= es);
    }
}

/// A catalog read from a document whose models table keeps its keys in
/// order, as every TOML table is read, holds one entry for each table under
/// `models`, in that order, so its entries come strictly in order of
/// identifier; each entry's context, estimate and startup budget are above
/// zero and its path is relative; the version is above zero; and each
/// entry's flags are the defaults' with its own laid over them.
pub proof fn law_parsed_catalog(document: Table, c: Catalog)
    requires
        parsed_as(document, Ok::<Catalog, Report>(c)),
        keys_ascending(model_items(document)),
    ensures
        ids_ascending(c.entries@),
        forall|j: int| 0 <= j < c.entries@.len() ==> settings_positive(#[trigger] c.entries@[j]),
        c.version > 0,
        exists|d: Defaults|
            {
                &&& #[trigger] defaults_of(document, d)
                &&& entries_of(c.entries@, model_items(document), d)
                &&& forall|j: int, k: Seq<char>|
                    0 <= j < c.entries@.len() ==> #[trigger] c.entries@[j].flags.value_of(k) == match flags_value(
                        model_items(document)[j].1->Table_0,
                        k,
                    ) {
                        Some(v) => Some(v),
                        None => d.flags.value_of(k),
                    }
            },
{
    let d = choose|d: Defaults|
        {
            &&& defaults_of(document, d)
            &&& parse_problems(document, d).len() == 0
            &&& entries_of(c.entries@, models_yielding(model_items(document), d), d)
        };
    let items = model_items(document);
    assert(walk_problems(document, d).len() == 0);
    assert(super::read::models_problems(document, d).len() == 0);
    if super::document::item_at(document, "models"@) is None {
        assert(super::read::models_problems(document, d).len() == 1);
    }
    assert(models_fold_problems(items, d).len() == 0);
    lemma_clean_models_all_yield(items, d);
    assert forall|j: int, k: Seq<char>|
        0 <= j < c.entries@.len() implies #[trigger] c.entries@[j].flags.value_of(k) == match flags_value(
            items[j].1->Table_0,
            k,
        ) {
            Some(v) => Some(v),
            None => d.flags.value_of(k),
        } by {
        assert(super::read::entry_made(c.entries@[j], items[j], d));
    }
}

} // verus!
