//! What a decision is about: the models held, and the one being asked for.
//!
//! `admission` weighs these against a ceiling; nothing here weighs anything.
//! Keeping them apart means the arithmetic of what a model costs -- which
//! flags put layers on the device, what a measurement overrides -- can be
//! read without the eviction policy in the way, and the reverse.

use vstd::prelude::*;

use crate::catalog::flags::Flags;
use crate::catalog::{Entry, Residency};
use crate::memory::{largest_of, Measurement};
use crate::text::{chars_of, same, trim, trimmed};
use crate::time::Moment;

verus! {

/// One model the router has loaded, as admission needs to see it.
#[derive(Debug)]
pub struct Loaded {
    /// Which entry it is.
    pub id: String,
    /// What it costs: its estimate, or what it was measured at if that is
    /// more.
    pub cost_mib: u64,
    /// What unloading it would free on the device: what it was seen to hold
    /// there, or its share of the estimate if nothing could be seen.
    pub device_mib: u64,
    /// Whether it may ever be unloaded.
    pub residency: Residency,
    /// Whether anything is reading from it.
    pub busy: bool,
    /// When it last answered, so the coldest is unloaded first.
    pub last_used: Moment,
}

impl Clone for Loaded {
    fn clone(&self) -> (r: Self)
        ensures
            r == *self,
    {
        Loaded {
            id: self.id.clone(),
            cost_mib: self.cost_mib,
            device_mib: self.device_mib,
            residency: self.residency,
            busy: self.busy,
            last_used: self.last_used,
        }
    }
}

/// Whether a flag is set to exactly zero, surrounding space aside.
pub open spec fn set_to_zero(flags: Flags, key: Seq<char>) -> bool {
    match flags.value_of(key) {
        Some(v) => trim(v) == "0"@,
        None => false,
    }
}

/// Whether the flags keep every layer off the device, under any of the
/// three spellings the server accepts: `n-gpu-layers`, `ngl`, `gpu-layers`.
pub open spec fn keeps_layers_off(flags: Flags) -> bool {
    set_to_zero(flags, "n-gpu-layers"@) || set_to_zero(flags, "ngl"@) || set_to_zero(
        flags,
        "gpu-layers"@,
    )
}

/// What an entry is expected to hold on the device: its whole estimate,
/// unless its flags keep every layer off it.
pub open spec fn device_need(entry: Entry) -> nat {
    if keeps_layers_off(entry.flags) {
        0
    } else {
        entry.memory_estimate_mib as nat
    }
}

/// What a measurement says a loaded entry costs beyond its estimate: what it
/// holds on the device when it is kept off the device, else the larger side.
pub open spec fn measured_cost(entry: Entry, m: Measurement) -> Option<u64> {
    if device_need(entry) == 0 {
        m.device_mib
    } else {
        largest_of(m)
    }
}

/// What a loaded entry costs: its estimate, raised to what it was measured
/// at when that is more.
pub open spec fn loaded_cost(entry: Entry, m: Measurement) -> nat {
    match measured_cost(entry, m) {
        Some(mib) => if mib >= entry.memory_estimate_mib {
            mib as nat
        } else {
            entry.memory_estimate_mib as nat
        },
        None => entry.memory_estimate_mib as nat,
    }
}

/// What unloading a loaded entry frees on the device: what it was seen to
/// hold there, or what it was expected to.
pub open spec fn loaded_device(entry: Entry, m: Measurement) -> nat {
    match m.device_mib {
        Some(d) => d as nat,
        None => device_need(entry),
    }
}

/// Whether a flag is written as zero.
pub open spec fn written_zero(flags: Flags, key: Seq<char>) -> bool {
    flags.value_of(key) matches Some(v) && trim(v) == "0"@
}

/// What a loaded entry is charged on the ledger. An entry whose flags keep
/// every layer off the device (`n-gpu-layers`, `ngl` or `gpu-layers` set to
/// zero) is charged what it puts on the device, floored at its estimate, and
/// what it holds in system memory never changes its charge. Any other entry
/// that expects to hold something is charged the largest of its estimate and
/// the sides measured.
pub proof fn law_loaded_charge(entry: Entry, m: Measurement, other: Measurement)
    ensures
        ({
            let est = entry.memory_estimate_mib as nat;
            let off = written_zero(entry.flags, "n-gpu-layers"@) || written_zero(entry.flags, "ngl"@)
                || written_zero(entry.flags, "gpu-layers"@);
            &&& off ==> loaded_cost(entry, m) == match m.device_mib {
                Some(d) => if d >= est { d as nat } else { est },
                None => est,
            }
            &&& off && other.device_mib == m.device_mib ==> loaded_cost(entry, other) == loaded_cost(entry, m)
            &&& !off && est > 0 ==> loaded_cost(entry, m) >= est
            &&& !off && est > 0 ==> (m.resident_mib matches Some(r) ==> loaded_cost(entry, m) >= r)
            &&& !off && est > 0 ==> (m.device_mib matches Some(d) ==> loaded_cost(entry, m) >= d)
            &&& !off && est > 0 ==> (loaded_cost(entry, m) == est || m.resident_mib == Some(loaded_cost(entry, m) as u64)
                || m.device_mib == Some(loaded_cost(entry, m) as u64))
        }),
{
}

/// What an entry is taken to hold on the device: nothing when its flags keep
/// every layer off it, else its whole estimate; and a loaded entry frees on
/// the device what it was seen to hold there, or that expectation when
/// nothing could be seen.
pub proof fn law_device_share(entry: Entry, m: Measurement)
    ensures
        ({
            let est = entry.memory_estimate_mib as nat;
            let off = written_zero(entry.flags, "n-gpu-layers"@) || written_zero(entry.flags, "ngl"@)
                || written_zero(entry.flags, "gpu-layers"@);
            &&& device_need(entry) == if off { 0 } else { est }
            &&& loaded_device(entry, m) == match m.device_mib {
                Some(d) => d as nat,
                None => if off { 0 } else { est },
            }
        }),
{
}

impl Loaded {
    /// What admission needs to know about one entry that is loaded.
    ///
    /// The measurement raises the cost and never lowers it. What a model
    /// holds a moment after loading is a floor: the context fills as it is
    /// used, so an estimate above the measurement is the operator saying what
    /// the model grows to, and that is kept. An entry pinned to the processor
    /// is charged what it puts on the device, not what it holds in system
    /// memory: the ceiling these are weighed against is derived from the
    /// device when the machine has one.
    pub fn of(entry: &Entry, busy: bool, last_used: Moment, measured: &Measurement) -> (r: Self)
        ensures
            r.id@ == entry.id@,
            r.cost_mib == loaded_cost(*entry, *measured),
            r.device_mib == loaded_device(*entry, *measured),
            r.residency == entry.residency,
            r.busy == busy,
            r.last_used == last_used,
    {
        let estimate = entry.memory_estimate_mib as u64;
        let need = device_need_mib(entry);
        let cost = if need == 0 {
            measured.device_mib
        } else {
            measured.largest_mib()
        };
        let cost_mib = match cost {
            Some(mib) => if mib >= estimate {
                mib
            } else {
                estimate
            },
            None => estimate,
        };
        let device_mib = match measured.device_mib {
            Some(d) => d,
            None => need,
        };
        Loaded {
            id: entry.id.clone(),
            cost_mib,
            device_mib,
            residency: entry.residency,
            busy,
            last_used,
        }
    }
}

/// The entry a caller wants started, as admission needs to see it.
#[derive(Debug, Clone, PartialEq, Eq)]
pub struct Wanted {
    /// Which entry it is.
    pub id: String,
    /// What loading it is expected to cost.
    pub cost_mib: u64,
    /// How much of that lands on the device.
    pub device_mib: u64,
}

impl Wanted {
    /// One entry, at its catalog estimate.
    pub fn of(entry: &Entry) -> (r: Self)
        ensures
            r.id@ == entry.id@,
            r.cost_mib == entry.memory_estimate_mib,
            r.device_mib == device_need(*entry),
    {
        Wanted {
            id: entry.id.clone(),
            cost_mib: entry.memory_estimate_mib as u64,
            device_mib: device_need_mib(entry),
        }
    }
}

/// Whether one flag is set to exactly zero.
fn zero_flag(flags: &Flags, key: &str) -> (b: bool)
    ensures
        b == set_to_zero(*flags, key@),
{
    match flags.get(key) {
        Some(value) => {
            let read = trimmed(&chars_of(value.as_str()));
            let zero = chars_of("0");
            same(&read, &zero)
        },
        None => false,
    }
}

/// What an entry is expected to hold on the device: its whole estimate,
/// unless its flags keep every layer off it.
///
/// A model kept off the device still holds a small runtime context there,
/// and that is not counted: it is under the margin the derived budget keeps
/// back, and the measurement taken once the model has loaded counts it from
/// then on.
pub fn device_need_mib(entry: &Entry) -> (r: u64)
    ensures
        r == device_need(*entry),
{
    let off = zero_flag(&entry.flags, "n-gpu-layers") || zero_flag(&entry.flags, "ngl")
        || zero_flag(&entry.flags, "gpu-layers");
    if off {
        0
    } else {
        entry.memory_estimate_mib as u64
    }
}

} // verus!
