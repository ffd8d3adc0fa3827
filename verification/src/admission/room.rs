//! What there is to fit into, and the words for when there is not.
//!
//! `admission` chooses candidates coldest first, and this says whether what
//! they would free is enough -- on the ledger, on the device, or on neither.

use vstd::prelude::*;

use super::subject::{Loaded, Wanted};
use crate::catalog::Residency;
use crate::text::{decimal, decimal_string, join, joined_with};

verus! {

/// What there is to fit into, on both sides, in mebibytes.
pub struct Room {
    /// The ledger's ceiling, or none.
    pub limit: Option<u64>,
    /// What the ledger counts as held now.
    pub held: u128,
    /// What the device reports free now, or none when it cannot be asked.
    pub device_free: Option<u64>,
}

/// What unloading the candidates chosen so far would give back, in
/// mebibytes: on the ledger, and on the device.
pub struct Freed {
    pub cost: u128,
    pub device: u128,
}

/// Which side has no room, when one has not.
#[derive(Debug, Clone, Copy, PartialEq, Eq)]
pub enum Short {
    /// The budget's ceiling would be passed.
    Ledger,
    /// The device has less free than the model would put on it.
    Device,
}

/// Whether the ledger has room for `cost` once `freed` of `held` is given
/// back. The ceiling is inclusive: holding exactly the budget is within it.
pub open spec fn ledger_fits(limit: Option<u64>, held: nat, freed: nat, cost: nat) -> bool {
    match limit {
        Some(l) => (if held >= freed {
            held - freed
        } else {
            0int
        }) + cost <= l,
        None => true,
    }
}

/// Whether the device has room for `need` once `freed` is given back.
pub open spec fn device_fits(free: Option<u64>, freed: nat, need: nat) -> bool {
    match free {
        Some(f) => f + freed >= need,
        None => true,
    }
}

/// Which side is still short, the ledger named first.
pub open spec fn shortfall(
    limit: Option<u64>,
    held: nat,
    free: Option<u64>,
    freed_cost: nat,
    freed_device: nat,
    cost: nat,
    need: nat,
) -> Option<Short> {
    if !ledger_fits(limit, held, freed_cost, cost) {
        Some(Short::Ledger)
    } else if !device_fits(free, freed_device, need) {
        Some(Short::Device)
    } else {
        None
    }
}

/// What a list of loaded entries costs together on the ledger.
pub open spec fn cost_sum(s: Seq<Loaded>) -> nat
    decreases s.len(),
{
    if s.len() == 0 {
        0
    } else {
        cost_sum(s.drop_last()) + s.last().cost_mib as nat
    }
}

/// What a list of loaded entries holds together on the device.
pub open spec fn device_sum(s: Seq<Loaded>) -> nat
    decreases s.len(),
{
    if s.len() == 0 {
        0
    } else {
        device_sum(s.drop_last()) + s.last().device_mib as nat
    }
}

/// What the resident entries of a list cost together.
pub open spec fn resident_sum(s: Seq<Loaded>) -> nat
    decreases s.len(),
{
    if s.len() == 0 {
        0
    } else {
        resident_sum(s.drop_last()) + if s.last().residency == Residency::Resident {
            s.last().cost_mib as nat
        } else {
            0
        }
    }
}

/// The identifiers of the resident entries of a list, in order.
pub open spec fn resident_ids(s: Seq<Loaded>) -> Seq<Seq<char>>
    decreases s.len(),
{
    if s.len() == 0 {
        Seq::empty()
    } else if s.last().residency == Residency::Resident {
        resident_ids(s.drop_last()).push(s.last().id@)
    } else {
        resident_ids(s.drop_last())
    }
}

/// One holder of memory, and why it is staying: `id (N MiB, busy)`.
pub open spec fn holder_text(e: Loaded) -> Seq<char> {
    e.id@ + " ("@ + decimal(e.cost_mib as nat) + " MiB"@ + (if e.busy {
        ", busy"@
    } else if e.residency == Residency::Resident {
        ", resident"@
    } else {
        ""@
    }) + ")"@
}

/// What is holding the memory, each entry said in turn.
pub open spec fn holders_text(s: Seq<Loaded>) -> Seq<char> {
    joined_with(s.map_values(|e: Loaded| holder_text(e)), ", "@)
}

/// What is left of a limit once a reservation is taken from it, or nothing.
pub open spec fn left_after(limit: nat, reserved: nat) -> nat {
    if limit >= reserved {
        (limit - reserved) as nat
    } else {
        0
    }
}

/// Why the ledger refuses, when residents alone leave the entry no room.
pub open spec fn permanent_text(id: Seq<char>, cost: nat, limit: nat, loaded: Seq<Loaded>) -> Seq<
    char,
> {
    "'"@ + id + "' needs "@ + decimal(cost) + " MiB and can never load: of the budget's "@
        + decimal(limit) + " MiB, "@ + decimal(resident_sum(loaded))
        + " MiB is permanently reserved by resident entries ("@ + joined_with(
        resident_ids(loaded),
        ", "@,
    ) + "), leaving "@ + decimal(left_after(limit, resident_sum(loaded)))
        + ". Unloading the rest would not be enough and waiting cannot help -- make one of those entries on-demand, or lower this one's estimate or context"@
}

/// Why the ledger refuses, when what holds it is named.
pub open spec fn held_text(id: Seq<char>, cost: nat, limit: nat, loaded: Seq<Loaded>) -> Seq<char> {
    "'"@ + id + "' needs "@ + decimal(cost) + " MiB and the budget of "@ + decimal(limit)
        + " MiB is held by: "@ + holders_text(loaded)
}

/// Why the device refuses.
pub open spec fn device_text(
    id: Seq<char>,
    need: nat,
    free: nat,
    freed: nat,
    loaded: Seq<Loaded>,
) -> Seq<char> {
    "'"@ + id + "' needs "@ + decimal(need) + " MiB on the device, which has "@ + decimal(free)
        + " MiB free and would have "@ + decimal(free + freed)
        + " MiB once every idle model was unloaded; the rest is held by something outside this router"@
        + (if loaded.len() == 0 {
        ""@
    } else {
        ", beside: "@ + holders_text(loaded)
    })
}

/// Why nothing more can be done, naming whichever side said no.
pub open spec fn refusal_text(
    short: Short,
    limit: Option<u64>,
    free: Option<u64>,
    wanted: Wanted,
    freed_device: nat,
    loaded: Seq<Loaded>,
) -> Seq<char> {
    let l: nat = match limit {
        Some(l) => l as nat,
        None => 0,
    };
    match short {
        Short::Ledger => if wanted.cost_mib + resident_sum(loaded) > l {
            permanent_text(wanted.id@, wanted.cost_mib as nat, l, loaded)
        } else {
            held_text(wanted.id@, wanted.cost_mib as nat, l, loaded)
        },
        Short::Device => device_text(
            wanted.id@,
            wanted.device_mib as nat,
            match free {
                Some(f) => f as nat,
                None => 0,
            },
            freed_device,
            loaded,
        ),
    }
}

/// The largest a sum of `n` figures of 64 bits can be.
pub open spec fn sum_bound(n: nat) -> nat {
    n * 0xffff_ffff_ffff_ffffnat
}

proof fn lemma_sums_bounded(s: Seq<Loaded>)
    ensures
        cost_sum(s) <= sum_bound(s.len()),
        device_sum(s) <= sum_bound(s.len()),
        resident_sum(s) <= sum_bound(s.len()),
    decreases s.len(),
{
    if s.len() > 0 {
        lemma_sums_bounded(s.drop_last());
    }
}

impl Room {
    /// Which side is still short once `freed` is given back, or `None` when
    /// the wanted entry fits on both.
    ///
    /// The ledger is named first when both are short, because its holders
    /// are what an operator can act on; the device is named only when the
    /// ledger would have had room, because then the answer is about the
    /// machine rather than about the catalog.
    pub fn short(&self, wanted: &Wanted, freed: &Freed) -> (r: Option<Short>)
        ensures
            r == shortfall(
                self.limit,
                self.held as nat,
                self.device_free,
                freed.cost as nat,
                freed.device as nat,
                wanted.cost_mib as nat,
                wanted.device_mib as nat,
            ),
    {
        let ledger = match self.limit {
            Some(limit) => {
                let left: u128 = if self.held >= freed.cost {
                    self.held - freed.cost
                } else {
                    0
                };
                left <= limit as u128 && wanted.cost_mib as u128 <= limit as u128 - left
            },
            None => true,
        };
        let device = match self.device_free {
            Some(free) => {
                let need = wanted.device_mib as u128;
                need <= free as u128 || need - free as u128 <= freed.device
            },
            None => true,
        };
        if !ledger {
            Some(Short::Ledger)
        } else if !device {
            Some(Short::Device)
        } else {
            None
        }
    }

    /// Why nothing more can be done, naming whichever side said no.
    pub fn refusal(&self, short: Short, wanted: &Wanted, freed: &Freed, loaded: &[Loaded]) -> (r:
        String)
        requires
            freed.device <= sum_bound(loaded@.len()),
        ensures
            r@ == refusal_text(
                short,
                self.limit,
                self.device_free,
                *wanted,
                freed.device as nat,
                loaded@,
            ),
    {
        match short {
            Short::Ledger => {
                let limit: u64 = match self.limit {
                    Some(l) => l,
                    None => 0,
                };
                let reserved = resident_cost(loaded);
                proof {
                    assert(loaded@.len() == loaded.len());
                    assert(sum_bound(loaded@.len()) + 0xffff_ffff_ffff_ffffnat
                        <= (usize::MAX + 1) * 0xffff_ffff_ffff_ffffnat) by (nonlinear_arith)
                        requires
                            loaded@.len() <= usize::MAX,
                    ;
                }
                if wanted.cost_mib as u128 + reserved > limit as u128 {
                    let residents = resident_names(loaded);
                    let left: u128 = if limit as u128 >= reserved {
                        limit as u128 - reserved
                    } else {
                        0
                    };
                    let mut s = String::from_str("'");
                    s.append(wanted.id.as_str());
                    s.append("' needs ");
                    s.append(decimal_string(wanted.cost_mib as u128).as_str());
                    s.append(" MiB and can never load: of the budget's ");
                    s.append(decimal_string(limit as u128).as_str());
                    s.append(" MiB, ");
                    s.append(decimal_string(reserved).as_str());
                    s.append(" MiB is permanently reserved by resident entries (");
                    s.append(join(&residents, ", ").as_str());
                    s.append("), leaving ");
                    s.append(decimal_string(left).as_str());
                    s.append(
                        ". Unloading the rest would not be enough and waiting cannot help -- make one of those entries on-demand, or lower this one's estimate or context",
                    );
                    return s;
                }
                let mut s = String::from_str("'");
                s.append(wanted.id.as_str());
                s.append("' needs ");
                s.append(decimal_string(wanted.cost_mib as u128).as_str());
                s.append(" MiB and the budget of ");
                s.append(decimal_string(limit as u128).as_str());
                s.append(" MiB is held by: ");
                s.append(holders(loaded).as_str());
                s
            },
            Short::Device => {
                let free: u64 = match self.device_free {
                    Some(f) => f,
                    None => 0,
                };
                proof {
                    assert(loaded@.len() == loaded.len());
                    assert(sum_bound(loaded@.len()) <= usize::MAX * 0xffff_ffff_ffff_ffffnat)
                        by (nonlinear_arith)
                        requires
                            loaded@.len() <= usize::MAX,
                    ;
                }
                let mut s = String::from_str("'");
                s.append(wanted.id.as_str());
                s.append("' needs ");
                s.append(decimal_string(wanted.device_mib as u128).as_str());
                s.append(" MiB on the device, which has ");
                s.append(decimal_string(free as u128).as_str());
                s.append(" MiB free and would have ");
                s.append(decimal_string(free as u128 + freed.device).as_str());
                s.append(
                    " MiB once every idle model was unloaded; the rest is held by something outside this router",
                );
                if loaded.len() != 0 {
                    let mut beside = String::from_str(", beside: ");
                    beside.append(holders(loaded).as_str());
                    s.append(beside.as_str());
                } else {
                    s.append("");
                }
                s
            },
        }
    }
}

/// What the resident entries of a list cost together.
fn resident_cost(loaded: &[Loaded]) -> (r: u128)
    ensures
        r == resident_sum(loaded@),
        r <= sum_bound(loaded@.len()),
{
    let mut total: u128 = 0;
    let mut i: usize = 0;
    while i < loaded.len()
        invariant
            i <= loaded.len(),
            total == resident_sum(loaded@.subrange(0, i as int)),
            total <= sum_bound(i as nat),
        decreases loaded.len() - i,
    {
        assert(loaded@.subrange(0, i + 1).drop_last() =~= loaded@.subrange(0, i as int));
        proof {
            assert(sum_bound((i + 1) as nat) <= usize::MAX * 0xffff_ffff_ffff_ffffnat)
                by (nonlinear_arith)
                requires
                    i < usize::MAX,
            ;
        }
        if loaded[i].residency.is_resident() {
            total = total + loaded[i].cost_mib as u128;
        }
        i += 1;
    }
    assert(loaded@.subrange(0, loaded.len() as int) =~= loaded@);
    total
}

/// The identifiers of the resident entries of a list, in order.
fn resident_names(loaded: &[Loaded]) -> (r: Vec<String>)
    ensures
        r@.map_values(|p: String| p@) == resident_ids(loaded@),
{
    let mut r: Vec<String> = Vec::new();
    let mut i: usize = 0;
    while i < loaded.len()
        invariant
            i <= loaded.len(),
            r@.map_values(|p: String| p@) == resident_ids(loaded@.subrange(0, i as int)),
        decreases loaded.len() - i,
    {
        assert(loaded@.subrange(0, i + 1).drop_last() =~= loaded@.subrange(0, i as int));
        if loaded[i].residency.is_resident() {
            let ghost before = r@.map_values(|p: String| p@);
            r.push(loaded[i].id.clone());
            assert(r@.map_values(|p: String| p@) =~= before.push(loaded@[i as int].id@));
        }
        i += 1;
    }
    assert(loaded@.subrange(0, loaded.len() as int) =~= loaded@);
    r
}

/// One holder of memory, and why it is staying.
fn holder(e: &Loaded) -> (r: String)
    ensures
        r@ == holder_text(*e),
{
    let mut s = String::from_str(e.id.as_str());
    s.append(" (");
    s.append(decimal_string(e.cost_mib as u128).as_str());
    s.append(" MiB");
    if e.busy {
        s.append(", busy");
    } else if e.residency.is_resident() {
        s.append(", resident");
    } else {
        s.append("");
    }
    s.append(")");
    s
}

/// What is holding the memory, and why each one is staying.
///
/// A refusal a caller can act on has to say which entries are in the way and
/// which of those could never move, so the reader knows whether to retry or
/// to change the catalog.
pub fn holders(loaded: &[Loaded]) -> (r: String)
    ensures
        r@ == holders_text(loaded@),
{
    let mut parts: Vec<String> = Vec::new();
    let mut i: usize = 0;
    while i < loaded.len()
        invariant
            i <= loaded.len(),
            parts@.map_values(|p: String| p@) == loaded@.subrange(0, i as int).map_values(
                |e: Loaded| holder_text(e),
            ),
        decreases loaded.len() - i,
    {
        let ghost before = parts@.map_values(|p: String| p@);
        parts.push(holder(&loaded[i]));
        assert(parts@.map_values(|p: String| p@) =~= before.push(holder_text(loaded@[i as int])));
        assert(loaded@.subrange(0, i + 1).map_values(|e: Loaded| holder_text(e))
            =~= loaded@.subrange(0, i as int).map_values(|e: Loaded| holder_text(e)).push(
            holder_text(loaded@[i as int]),
        ));
        i += 1;
    }
    assert(loaded@.subrange(0, loaded.len() as int) =~= loaded@);
    join(&parts, ", ")
}

} // verus!
