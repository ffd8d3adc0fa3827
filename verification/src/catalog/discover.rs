//! Every model file under the root that the catalog does not name.
//!
//! The rules, all of them about file names, because that is what a file on
//! disk offers before it is opened:
//!
//! - a file is a model when its extension is `gguf`, in any case;
//! - a file the catalog already names, as weights, draft or projector, is the
//!   catalog's and not found again;
//! - a projector, named `mmproj` by every tool that writes one, is not a
//!   model on its own;
//! - a draft for speculative decoding is not either: the convention is an
//!   `mtp` segment such as `mtp-` or `FastMTP`;
//! - of a model split into shards, `-00001-of-0000N` names the entry and the
//!   rest are its weights.
//!
//! An entry is on-demand, takes the defaults table, and gets a derived
//! estimate. Its identifier is the file's stem, lowercased, with every run of
//! anything but letters and digits collapsed to one hyphen. When that is a
//! name the catalog, the proxy or an earlier file already has, the parent
//! directory's name is put in front, and the note says so.

pub mod name;

use vstd::prelude::*;

use super::estimate::{derivation_of, said_at, Basis, Disk};
use super::field::text_option;
use super::flags::Flags;
use super::path::{joined, refusal};
use super::read::{copied, Defaults, DEFAULT_STARTUP_TIMEOUT_SECONDS};
use super::{Entry, RelativePath, Residency};
use crate::gguf::model_number;
use crate::text::{chars_of, decimal, decimal_string, push_string, strings};
use name::{identified, identifier, is_model, model_name, reserved, reserved_ids};

verus! {

/// The context a discovered entry gets when neither the defaults table nor
/// the file says: the server's own default.
pub const FALLBACK_CONTEXT: u32 = 4096;

/// One file a walk of the root found.
#[derive(Debug, Clone, PartialEq, Eq)]
pub enum Found {
    /// A file whose path under the root is text, written with `/` between
    /// its parts.
    Located(String),
    /// A file whose path is not text this catalog can carry: its name, and
    /// how its path displays.
    Unlocated { name: String, shown: String },
}

/// The locations entries name, each resolved against the root.
pub open spec fn references(entries: Seq<Entry>, root: Seq<char>) -> Seq<Seq<char>>
    decreases entries.len(),
{
    if entries.len() == 0 {
        Seq::empty()
    } else {
        let e = entries.last();
        let own = seq![joined(root, e.path@)] + (match e.draft_path {
            Some(d) => seq![joined(root, d@)],
            None => Seq::empty(),
        }) + (match e.projector_path {
            Some(p) => seq![joined(root, p@)],
            None => Seq::empty(),
        });
        references(entries.drop_last(), root) + own
    }
}

/// The context the file says its model was trained for, when it says.
pub open spec fn trained_for(disk: Disk, path: Seq<char>) -> Option<u32> {
    match said_at(disk, path) {
        Some(s) => match model_number(s, "context_length"@) {
            Some(c) => if 0 < c && c <= u32::MAX {
                Some(c as u32)
            } else {
                None
            },
            None => None,
        },
        None => None,
    }
}

/// The context a discovered entry is started with: the defaults' or the
/// trained one or the fallback, never above what it was trained for.
pub open spec fn discovered_context(d: Defaults, trained: Option<u32>) -> u32 {
    let wanted = match d.context_size {
        Some(c) => c,
        None => match trained {
            Some(t) => t,
            None => FALLBACK_CONTEXT,
        },
    };
    let most = match trained {
        Some(t) => t,
        None => u32::MAX,
    };
    if wanted < most {
        wanted
    } else {
        most
    }
}

/// Whether an entry is what a discovered file becomes: on-demand, the
/// defaults' settings, no draft, no projector, no runtime of its own.
pub open spec fn discovered_as(e: Entry, id: Seq<char>, location: Seq<char>, d: Defaults, context: u32) -> bool {
    &&& e.id@ == id
    &&& e.path@ == location
    &&& e.path.well_formed()
    &&& e.draft_path is None
    &&& e.projector_path is None
    &&& e.context_size == context
    &&& e.residency == Residency::OnDemand
    &&& text_option(e.reasoning_format) == text_option(d.reasoning_format)
    &&& text_option(e.reasoning_effort) == text_option(d.reasoning_effort)
    &&& e.startup_timeout_seconds == match d.startup_timeout_seconds {
        Some(v) => v,
        None => DEFAULT_STARTUP_TIMEOUT_SECONDS,
    }
    &&& e.runtime is None
    &&& e.flags@ == d.flags@
    &&& e.flags.well_formed() == d.flags.well_formed()
}

/// What the walk has come to: the names taken, what was noted, and each
/// entry made, by its identifier, location, context and estimate.
pub struct Walk {
    pub taken: Seq<Seq<char>>,
    pub notes: Seq<Seq<char>>,
    pub made: Seq<(Seq<char>, Seq<char>, u32, u32)>,
}

/// What the note for a discovered entry says.
pub open spec fn found_note(id: Seq<char>, location: Seq<char>, mib: u32, context: u32, basis: Basis) -> Seq<char> {
    "discovered '"@ + id + "' at "@ + location + ": "@ + decimal(mib as nat)
        + " MiB estimated at "@ + decimal(context as nat) + " tokens of context"@ + match basis {
        Basis::Metadata => Seq::<char>::empty(),
        Basis::Size => ", from file size alone"@,
    }
}

/// The note for a file whose path cannot be carried.
pub open spec fn unlocated_note(shown: Seq<char>) -> Seq<char> {
    "skipped '"@ + shown + "': its path is not text this catalog can carry"@
}

/// What one more file does to the walk.
pub open spec fn walk_step(w: Walk, f: Found, root: Seq<char>, referenced: Seq<Seq<char>>, d: Defaults, disk: Disk) -> Walk {
    match f {
        Found::Unlocated { name, shown } => if model_name(name@) {
            Walk { notes: w.notes.push(unlocated_note(shown@)), ..w }
        } else {
            w
        },
        Found::Located(location) => {
            let path = joined(root, location@);
            if !model_name(crate::catalog::estimate::shard::file_name(location@)) || referenced.contains(path) {
                w
            } else if refusal(location@) is Some {
                Walk { notes: w.notes.push(unlocated_note(path)), ..w }
            } else {
                let (id, note) = identified(path, w.taken);
                let noted = match note {
                    Some(n) => w.notes.push(n),
                    None => w.notes,
                };
                match id {
                    None => Walk { notes: noted, ..w },
                    Some(x) => {
                        let context = discovered_context(d, trained_for(disk, path));
                        match derivation_of(location@, None, None, context as nat, d.flags, root, disk) {
                            Ok(dv) => Walk {
                                taken: w.taken.push(x),
                                notes: noted.push(found_note(x, location@, dv.mib, context, dv.basis)),
                                made: w.made.push((x, location@, context, dv.mib)),
                            },
                            Err(why) => Walk {
                                taken: w.taken.push(x),
                                notes: noted.push("skipped '"@ + location@ + "': "@ + why),
                                made: w.made,
                            },
                        }
                    },
                }
            }
        },
    }
}

/// The context a discovered file's entry is made with. With no context in
/// the defaults, it is the one the file says its model was trained for
/// (`context_length`, when that is a positive 32-bit figure), and 4096 tokens
/// only when the file says none; a context the defaults give is kept, but
/// never above what the file was trained for.
pub proof fn law_discovered_context(
    w: Walk,
    location: String,
    root: Seq<char>,
    referenced: Seq<Seq<char>>,
    d: Defaults,
    disk: Disk,
)
    requires
        walk_step(w, Found::Located(location), root, referenced, d, disk).made.len() == w.made.len() + 1,
    ensures
        ({
            let context = walk_step(w, Found::Located(location), root, referenced, d, disk).made.last().2;
            let said = said_at(disk, joined(root, location@));
            let trained = said matches Some(s) && model_number(s, "context_length"@) matches Some(t) && 0
                < t <= u32::MAX;
            &&& trained && d.context_size is None ==> context == model_number(said->0, "context_length"@)->0
            &&& !trained && d.context_size is None ==> context == 4096
            &&& d.context_size matches Some(c) ==> context <= c
            &&& trained ==> context <= model_number(said->0, "context_length"@)->0
            &&& !trained ==> (d.context_size matches Some(c) ==> context == c)
        }),
{
}

/// What walking these files does, from a start.
pub open spec fn walked(fs: Seq<Found>, start: Walk, root: Seq<char>, referenced: Seq<Seq<char>>, d: Defaults, disk: Disk) -> Walk
    decreases fs.len(),
{
    if fs.len() == 0 {
        start
    } else {
        walk_step(walked(fs.drop_last(), start, root, referenced, d, disk), fs.last(), root, referenced, d, disk)
    }
}

/// Whether entries are what a walk made, in order, under the defaults.
pub open spec fn made_as(entries: Seq<Entry>, made: Seq<(Seq<char>, Seq<char>, u32, u32)>, d: Defaults) -> bool {
    &&& entries.len() == made.len()
    &&& forall|i: int| 0 <= i < made.len() ==> {
        &&& #[trigger] discovered_as(entries[i], made[i].0, made[i].1, d, made[i].2)
        &&& entries[i].memory_estimate_mib == made[i].3
    }
}

/// One more entry made as the walk made it keeps the entries what the walk
/// made.
proof fn lemma_made_push(
    found: Seq<Entry>,
    made: Seq<(Seq<char>, Seq<char>, u32, u32)>,
    e: Entry,
    m: (Seq<char>, Seq<char>, u32, u32),
    d: Defaults,
)
    requires
        made_as(found, made, d),
        discovered_as(e, m.0, m.1, d, m.2),
        e.memory_estimate_mib == m.3,
    ensures
        made_as(found.push(e), made.push(m), d),
{
    let f = found.push(e);
    let n = made.push(m);
    assert forall|j: int| 0 <= j < n.len() implies {
        &&& #[trigger] discovered_as(f[j], n[j].0, n[j].1, d, n[j].2)
        &&& f[j].memory_estimate_mib == n[j].3
    } by {
        if j < made.len() {
            assert(f[j] == found[j]);
            assert(n[j] == made[j]);
        }
    }
}

/// The entry one file becomes, or `None` once the note says why not.
fn entry(
    id: String,
    location: RelativePath,
    root: &str,
    defaults: &Defaults,
    disk: &Disk,
    notes: &mut Vec<String>,
) -> (r: Option<Entry>)
    requires
        location.well_formed(),
    ensures
        ({
            let context = discovered_context(*defaults, trained_for(*disk, joined(root@, location@)));
            match derivation_of(location@, None, None, context as nat, defaults.flags, root@, *disk) {
                Ok(dv) => r matches Some(e) && discovered_as(e, id@, location@, *defaults, context)
                    && e.memory_estimate_mib == dv.mib && strings(final(notes)@) == strings(
                    old(notes)@,
                ).push(found_note(id@, location@, dv.mib, context, dv.basis)),
                Err(why) => r is None && strings(final(notes)@) == strings(old(notes)@).push(
                    "skipped '"@ + location@ + "': "@ + why,
                ),
            }
        }),
{
    let path = location.resolve(root);
    let trained: Option<u32> = match disk.metadata_of(path.as_str()) {
        Some(m) => match m.of_model("context_length") {
            Some(c) => if 0 < c && c <= u32::MAX as u64 {
                Some(c as u32)
            } else {
                None
            },
            None => None,
        },
        None => None,
    };
    assert(trained == trained_for(*disk, joined(root@, location@)));
    let wanted: u32 = match defaults.context_size {
        Some(c) => c,
        None => match trained {
            Some(t) => t,
            None => FALLBACK_CONTEXT,
        },
    };
    let most: u32 = match trained {
        Some(t) => t,
        None => u32::MAX,
    };
    let context_size = if wanted < most {
        wanted
    } else {
        most
    };
    let mut entry = Entry {
        id,
        path: location,
        draft_path: None,
        projector_path: None,
        context_size,
        residency: Residency::OnDemand,
        memory_estimate_mib: 0,
        reasoning_format: copied(&defaults.reasoning_format),
        reasoning_effort: copied(&defaults.reasoning_effort),
        startup_timeout_seconds: match defaults.startup_timeout_seconds {
            Some(v) => v,
            None => DEFAULT_STARTUP_TIMEOUT_SECONDS,
        },
        runtime: None,
        flags: defaults.flags.clone(),
    };
    proof {
        crate::catalog::estimate::lemma_same_flags(entry.flags, defaults.flags, seq!["ctk"@, "cache-type-k"@]);
        crate::catalog::estimate::lemma_same_flags(entry.flags, defaults.flags, seq!["ctv"@, "cache-type-v"@]);
        crate::catalog::estimate::lemma_same_flags(entry.flags, defaults.flags, seq!["ctkd"@, "cache-type-k-draft"@]);
        crate::catalog::estimate::lemma_same_flags(entry.flags, defaults.flags, seq!["ctvd"@, "cache-type-v-draft"@]);
    }
    match super::estimate::derive(&entry, root, disk) {
        Ok(derived) => {
            entry.memory_estimate_mib = derived.mib;
            let mut note = String::from_str("discovered '");
            note.append(entry.id.as_str());
            note.append("' at ");
            note.append(entry.path.as_str());
            note.append(": ");
            note.append(decimal_string(derived.mib as u128).as_str());
            note.append(" MiB estimated at ");
            note.append(decimal_string(entry.context_size as u128).as_str());
            note.append(" tokens of context");
            match derived.basis {
                Basis::Metadata => {},
                Basis::Size => note.append(", from file size alone"),
            }
            push_string(notes, note);
            Some(entry)
        },
        Err(reason) => {
            let mut note = String::from_str("skipped '");
            note.append(entry.path.as_str());
            note.append("': ");
            note.append(reason.as_str());
            push_string(notes, note);
            None
        },
    }
}

/// Whether a list of paths holds one.
fn listed(paths: &Vec<String>, path: &String) -> (b: bool)
    ensures
        b == strings(paths@).contains(path@),
{
    let wanted = chars_of(path.as_str());
    let mut i: usize = 0;
    while i < paths.len()
        invariant
            i <= paths.len(),
            wanted@ == path@,
            forall|k: int| 0 <= k < i ==> strings(paths@)[k] != path@,
        decreases paths.len() - i,
    {
        if crate::text::same(&chars_of(paths[i].as_str()), &wanted) {
            assert(strings(paths@)[i as int] == path@);
            return true;
        }
        i += 1;
    }
    false
}

/// The locations entries name, resolved against the root.
fn referenced(root: &str, entries: &Vec<Entry>) -> (r: Vec<String>)
    ensures
        strings(r@) == references(entries@, root@),
{
    let mut r: Vec<String> = Vec::new();
    let mut i: usize = 0;
    while i < entries.len()
        invariant
            i <= entries.len(),
            strings(r@) == references(entries@.subrange(0, i as int), root@),
        decreases entries.len() - i,
    {
        let ghost before = strings(r@);
        let e = &entries[i];
        push_string(&mut r, e.path.resolve(root));
        match &e.draft_path {
            Some(d) => push_string(&mut r, d.resolve(root)),
            None => {},
        }
        match &e.projector_path {
            Some(p) => push_string(&mut r, p.resolve(root)),
            None => {},
        }
        let ghost upto = entries@.subrange(0, i + 1);
        assert(upto.drop_last() =~= entries@.subrange(0, i as int));
        assert(upto.last() == entries@[i as int]);
        i += 1;
        assert(strings(r@) =~= references(entries@.subrange(0, i as int), root@));
    }
    assert(entries@.subrange(0, entries@.len() as int) =~= entries@);
    r
}

/// Every model file under `root` that `entries` do not name, as entries;
/// what is worth saying about each file is noted, in the order found.
pub fn under(root: &str, entries: &Vec<Entry>, defaults: &Defaults, disk: &Disk, notes: &mut Vec<String>) -> (r: Vec<Entry>)
    ensures
        ({
            let w = walked(
                disk.walked@,
                Walk { taken: crate::catalog::ids(entries@) + reserved_ids(), notes: Seq::empty(), made: Seq::empty() },
                root@,
                references(entries@, root@),
                *defaults,
                *disk,
            );
            &&& strings(final(notes)@) == strings(old(notes)@) + w.notes
            &&& made_as(r@, w.made, *defaults)
        }),
{
    let refs = referenced(root, entries);
    let mut taken: Vec<String> = Vec::new();
    let mut k: usize = 0;
    while k < entries.len()
        invariant
            k <= entries.len(),
            strings(taken@) == crate::catalog::ids(entries@.subrange(0, k as int)),
        decreases entries.len() - k,
    {
        push_string(&mut taken, entries[k].id.clone());
        k += 1;
        assert(strings(taken@) =~= crate::catalog::ids(entries@.subrange(0, k as int)));
    }
    assert(entries@.subrange(0, entries@.len() as int) =~= entries@);
    let kept = reserved();
    let mut k: usize = 0;
    let ghost own = strings(taken@);
    while k < kept.len()
        invariant
            k <= kept.len(),
            strings(kept@) == reserved_ids(),
            strings(taken@) == own + reserved_ids().subrange(0, k as int),
        decreases kept.len() - k,
    {
        push_string(&mut taken, kept[k].clone());
        k += 1;
        assert(strings(taken@) =~= own + reserved_ids().subrange(0, k as int));
    }
    assert(reserved_ids().subrange(0, 5) =~= reserved_ids());
    let ghost start = Walk { taken: strings(taken@), notes: Seq::empty(), made: Seq::empty() };
    let ghost n0 = strings(notes@);
    let mut found: Vec<Entry> = Vec::new();
    let mut i: usize = 0;
    while i < disk.walked.len()
        invariant
            i <= disk.walked.len(),
            strings(refs@) == references(entries@, root@),
            ({
                let w = walked(disk.walked@.subrange(0, i as int), start, root@, references(entries@, root@), *defaults, *disk);
                &&& strings(taken@) == w.taken
                &&& strings(notes@) == n0 + w.notes
                &&& made_as(found@, w.made, *defaults)
            }),
        decreases disk.walked.len() - i,
    {
        let ghost fs = disk.walked@.subrange(0, i + 1);
        assert(fs.drop_last() =~= disk.walked@.subrange(0, i as int));
        assert(fs.last() == disk.walked@[i as int]);
        let ghost w = walked(disk.walked@.subrange(0, i as int), start, root@, references(entries@, root@), *defaults, *disk);
        let ghost found_before = found@;
        match &disk.walked[i] {
            Found::Unlocated { name, shown } => {
                if is_model(name.as_str()) {
                    let mut note = String::from_str("skipped '");
                    note.append(shown.as_str());
                    note.append("': its path is not text this catalog can carry");
                    push_string(notes, note);
                    assert(strings(notes@) =~= n0 + w.notes.push(unlocated_note(shown@)));
                }
            },
            Found::Located(location) => {
                let path = super::path::resolved(root, location.as_str());
                let name = super::estimate::file_name_of(location.as_str());
                if is_model(name.as_str()) && !listed(&refs, &path) {
                    match RelativePath::new(location.as_str()) {
                        Err(_) => {
                            let mut note = String::from_str("skipped '");
                            note.append(path.as_str());
                            note.append("': its path is not text this catalog can carry");
                            push_string(notes, note);
                            assert(strings(notes@) =~= n0 + w.notes.push(unlocated_note(path@)));
                        },
                        Ok(at) => {
                            let ghost n1 = strings(notes@);
                            let ghost (gid, gnote) = identified(path@, w.taken);
                            match identifier(path.as_str(), &mut taken, notes) {
                                None => {
                                    assert(strings(notes@) =~= n0 + match gnote {
                                        Some(n) => w.notes.push(n),
                                        None => w.notes,
                                    });
                                },
                                Some(id) => {
                                    let ghost noted = match gnote {
                                        Some(n) => w.notes.push(n),
                                        None => w.notes,
                                    };
                                    assert(strings(notes@) =~= n0 + noted);
                                    let ghost idv = id@;
                                    match entry(id, at, root, defaults, disk, notes) {
                                        Some(e) => {
                                            let ghost ge = e;
                                            let ghost context = discovered_context(*defaults, trained_for(*disk, path@));
                                            assert(derivation_of(location@, None, None, context as nat, defaults.flags, root@, *disk) is Ok);
                                            let ghost dv = derivation_of(location@, None, None, context as nat, defaults.flags, root@, *disk)->Ok_0;
                                            assert(discovered_as(ge, idv, location@, *defaults, context));
                                            assert(ge.memory_estimate_mib == dv.mib);
                                            found.push(e);
                                            proof {
                                                let made = w.made.push((idv, location@, context, dv.mib));
                                                assert(walk_step(w, disk.walked@[i as int], root@, references(entries@, root@), *defaults, *disk).made == made);
                                                assert(found@ =~= found_before.push(e));
                                                lemma_made_push(found_before, w.made, ge, (idv, location@, context, dv.mib), *defaults);
                                            }
                                            assert(strings(notes@) =~= n0 + walk_step(w, disk.walked@[i as int], root@, references(entries@, root@), *defaults, *disk).notes);
                                        },
                                        None => {
                                            assert(strings(notes@) =~= n0 + walk_step(w, disk.walked@[i as int], root@, references(entries@, root@), *defaults, *disk).notes);
                                        },
                                    }
                                },
                            }
                        },
                    }
                }
            },
        }
        i += 1;
    }
    assert(disk.walked@.subrange(0, disk.walked@.len() as int) =~= disk.walked@);
    found
}

} // verus!
