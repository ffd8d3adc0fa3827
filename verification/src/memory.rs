//! What the machine says about its memory, asked at run time.
//!
//! The budget is a ceiling on estimates, and an estimate is what somebody
//! typed into a catalog. This module is the other source of truth: what the
//! device reports as free before a model is started, and what a child turns
//! out to hold once it has loaded. Neither replaces the catalog -- a figure
//! nobody can read stays an estimate -- but where the machine can be asked,
//! it is asked, and the answer is trusted over the guess.
//!
//! Every figure degrades the same way: a tool that is missing, hangs, or
//! prints something unreadable makes the figure *unknown*, never zero. The
//! readers of what the tools print are in [`parse`]; running the tools is the
//! program's business, not the library's.

pub mod parse;

use vstd::prelude::*;

verus! {

/// What one machine's device memory looks like, in mebibytes.
#[derive(Debug, Clone, Copy, PartialEq, Eq)]
pub struct DeviceMemory {
    /// What every device the driver reports holds, together.
    pub total_mib: u64,
    /// What is in use right now, by anything on the machine.
    pub used_mib: u64,
}

/// What is left of a device: its total less what is used, or nothing when
/// more is used than it holds.
pub open spec fn free_of(d: DeviceMemory) -> nat {
    if d.total_mib >= d.used_mib {
        (d.total_mib - d.used_mib) as nat
    } else {
        0
    }
}

impl DeviceMemory {
    /// What is left for a model to be started into.
    pub fn free_mib(&self) -> (r: u64)
        ensures
            r == free_of(*self),
    {
        self.total_mib.saturating_sub(self.used_mib)
    }
}

/// What one child was found to hold once it had loaded, in mebibytes.
///
/// Either side may be unknown, independently: a machine without a device
/// probe still has a resident set to read, and a platform where the device
/// query prints nothing still reports the device's total.
#[derive(Debug, Clone, Copy, PartialEq, Eq)]
pub struct Measurement {
    /// The process's resident set, or `None` when it could not be read.
    pub resident_mib: Option<u64>,
    /// What the process holds on the device, or `None` when it could not be
    /// read.
    pub device_mib: Option<u64>,
}

/// The larger of the known sides of a measurement, or `None` when neither
/// is known.
pub open spec fn largest_of(m: Measurement) -> Option<u64> {
    match (m.resident_mib, m.device_mib) {
        (Some(r), Some(d)) => Some(if r >= d { r } else { d }),
        (Some(r), None) => Some(r),
        (None, Some(d)) => Some(d),
        (None, None) => None,
    }
}

impl Measurement {
    /// Nothing could be read, which is what every child cost before the
    /// machine could be asked.
    pub fn unknown() -> (m: Self)
        ensures
            m.resident_mib is None,
            m.device_mib is None,
    {
        Measurement { resident_mib: None, device_mib: None }
    }

    /// The larger of the two sides, or `None` when neither is known.
    ///
    /// The larger rather than the sum, because weights mapped from a file
    /// count in the resident set *and*, once copied to the device, on the
    /// device -- so a sum would charge one model twice for the same bytes.
    pub fn largest_mib(&self) -> (r: Option<u64>)
        ensures
            r == largest_of(*self),
    {
        match (self.resident_mib, self.device_mib) {
            (Some(r), Some(d)) => Some(if r >= d { r } else { d }),
            (Some(r), None) => Some(r),
            (None, Some(d)) => Some(d),
            (None, None) => None,
        }
    }
}

impl Default for Measurement {
    fn default() -> (m: Self)
        ensures
            m.resident_mib is None,
            m.device_mib is None,
    {
        Measurement::unknown()
    }
}

/// The figures a test states, in place of a machine.
#[derive(Debug, Clone)]
pub struct Fixed {
    /// What the device query answers, or nothing when there is no device.
    pub device: Option<DeviceMemory>,
    /// What the system memory query answers.
    pub system_total_mib: Option<u64>,
    /// What every process measures as, whatever its pid.
    pub measurement: Measurement,
}

impl Default for Fixed {
    fn default() -> (f: Self)
        ensures
            f.device is None,
            f.system_total_mib is None,
            f.measurement.resident_mib is None,
            f.measurement.device_mib is None,
    {
        Fixed { device: None, system_total_mib: None, measurement: Measurement::unknown() }
    }
}

/// The tools this machine turned out to have.
#[derive(Debug, Clone)]
pub struct Machine {
    /// Where `nvidia-smi` is, when the machine has one, so it is found once.
    pub nvidia_smi: Option<String>,
}

/// Where the machine's own figures come from.
#[derive(Debug, Clone)]
pub enum Probe {
    /// The numbers a test wants, answered without running anything.
    Fixed(Fixed),
    /// The machine this router runs on, asked each time.
    Machine(Machine),
}

impl Probe {
    /// The probe that knows nothing.
    pub open spec fn none_spec() -> Probe {
        Probe::Fixed(
            Fixed {
                device: None,
                system_total_mib: None,
                measurement: Measurement { resident_mib: None, device_mib: None },
            },
        )
    }

    /// A probe that knows nothing, which is every test's default: the budget
    /// then behaves exactly as it did before the machine could be asked.
    pub fn none() -> (p: Self)
        ensures
            p == Probe::none_spec(),
    {
        Probe::Fixed(
            Fixed {
                device: None,
                system_total_mib: None,
                measurement: Measurement { resident_mib: None, device_mib: None },
            },
        )
    }
}

} // verus!
