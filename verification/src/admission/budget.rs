//! Where the budget comes from: a statement, the machine, or a test.
//!
//! `admission` decides what fits under a ceiling, and this decides what the
//! ceiling is. Nothing here weighs a model against anything.

use vstd::prelude::*;

use crate::launch::Failure;
use crate::memory::{DeviceMemory, Probe};
use crate::text::{chars_of, decimal, decimal_string, parse_u32, read_u32, trim, trimmed};

verus! {

/// What is kept back from the device's total when the budget is derived from
/// it: a tenth, and never less than this.
///
/// A device is never empty when a model loads -- the display, the driver and
/// whatever else the machine runs hold some of it -- and a budget set at the
/// whole total would admit a model into room that is not there. A tenth
/// covers a busy desktop on a large device; the floor covers a small device,
/// where a tenth is not a margin at all.
pub const MIN_DEVICE_MARGIN_MIB: u64 = 1024;

/// What may be held when the budget is derived from system memory, in
/// percent. Less than the device's share because the operating system and
/// everything else on the machine live in the same memory.
pub const SYSTEM_SHARE_PERCENT: u64 = 80;

/// Where the memory budget is configured. The estate prefix keeps it
/// recognisable beside the other variables a machine carries.
pub const VARIABLE: &'static str = "MAESTRO_MEMORY_BUDGET_MIB";

/// Why a configured budget is refused.
pub open spec fn budget_refusal(text: Seq<char>) -> Seq<char> {
    "MAESTRO_MEMORY_BUDGET_MIB carries '"@ + text
        + "', which is not a number of mebibytes; unset it for a budget the machine sets, or give it a whole number"@
}

/// What the router may hold models in at once.
#[derive(Debug)]
pub struct Budget {
    /// The ceiling in mebibytes, or `None` when there is none.
    pub(super) limit_mib: Option<u32>,
    /// Where the machine's own figures come from, for the checks that go
    /// beyond the ceiling.
    pub(super) probe: Probe,
    /// Where the ceiling came from, said once at startup.
    pub(super) source: String,
}

/// What is kept back from a device of this total.
pub open spec fn device_margin(total: nat) -> nat {
    if total / 10 >= MIN_DEVICE_MARGIN_MIB {
        total / 10
    } else {
        MIN_DEVICE_MARGIN_MIB as nat
    }
}

/// A limit as the budget holds it: nothing for zero, and at most what 32
/// bits hold.
pub open spec fn held_limit(limit: nat) -> Option<u32> {
    if limit == 0 {
        None
    } else if limit <= u32::MAX {
        Some(limit as u32)
    } else {
        Some(u32::MAX)
    }
}

/// The ceiling the machine sets: the device's total less its margin, else
/// four fifths of system memory, else none.
pub open spec fn derived_limit(device: Option<DeviceMemory>, system_total: Option<u64>) -> Option<
    u32,
> {
    match device {
        Some(d) => held_limit(
            if d.total_mib >= device_margin(d.total_mib as nat) {
                (d.total_mib - device_margin(d.total_mib as nat)) as nat
            } else {
                0
            },
        ),
        None => match system_total {
            Some(t) => held_limit(t as nat * SYSTEM_SHARE_PERCENT as nat / 100),
            None => None,
        },
    }
}

/// Where a ceiling the machine set came from, in words.
pub open spec fn derived_source(device: Option<DeviceMemory>, system_total: Option<u64>) -> Seq<
    char,
> {
    match device {
        Some(d) => "derived from the device ("@ + decimal(d.total_mib as nat)
            + " MiB total less a "@ + decimal(device_margin(d.total_mib as nat))
            + " MiB margin)"@,
        None => match system_total {
            Some(t) => "derived from system memory (80 percent of "@ + decimal(t as nat)
                + " MiB)"@,
            None => "nothing on this machine says what it holds"@,
        },
    }
}

impl Budget {
    /// The ceiling, or `None` when no budget applies.
    pub closed spec fn ceiling(&self) -> Option<u32> {
        self.limit_mib
    }

    /// Where the ceiling came from, in words.
    pub closed spec fn origin(&self) -> Seq<char> {
        self.source@
    }

    /// Where the machine's figures come from.
    pub closed spec fn figures(&self) -> Probe {
        self.probe
    }

    /// A budget of the given ceiling, or none at all, on a machine that
    /// reports nothing.
    ///
    /// Separate from reading the environment on purpose: a test states the
    /// budget it means directly rather than setting a process-global variable
    /// that every other test in its binary would race against.
    pub fn new(limit_mib: Option<u32>) -> (b: Self)
        ensures
            b.ceiling() == limit_mib,
            b.origin() == "stated directly"@,
            b.figures() == Probe::none_spec(),
    {
        Self::with_probe(limit_mib, Probe::none())
    }

    /// A stated ceiling, on a machine whose figures come from `probe`.
    pub fn with_probe(limit_mib: Option<u32>, probe: Probe) -> (b: Self)
        ensures
            b.ceiling() == limit_mib,
            b.origin() == "stated directly"@,
            b.figures() == probe,
    {
        Budget { limit_mib, probe, source: String::from_str("stated directly") }
    }

    /// A budget the machine itself sets, when nobody has, from what `probe`
    /// answered: `device` for the device query and `system_total_mib` for
    /// system memory.
    ///
    /// The device first, at its total less a margin, because a model that
    /// does not fit on the device is the failure this budget exists to
    /// prevent. System memory when there is no device to ask, at four fifths.
    /// No budget at all when the machine reports nothing, which is what an
    /// unset variable meant before the machine could be asked.
    pub fn derived(probe: Probe, device: Option<DeviceMemory>, system_total_mib: Option<u64>) -> (b:
        Self)
        ensures
            b.ceiling() == derived_limit(device, system_total_mib),
            b.origin() == derived_source(device, system_total_mib),
            b.figures() == probe,
    {
        let (limit, source): (u128, String) = match device {
            Some(d) => {
                let tenth = d.total_mib / 10;
                let margin = if tenth >= MIN_DEVICE_MARGIN_MIB {
                    tenth
                } else {
                    MIN_DEVICE_MARGIN_MIB
                };
                let limit = d.total_mib.saturating_sub(margin);
                let mut s = String::from_str("derived from the device (");
                s.append(decimal_string(d.total_mib as u128).as_str());
                s.append(" MiB total less a ");
                s.append(decimal_string(margin as u128).as_str());
                s.append(" MiB margin)");
                (limit as u128, s)
            },
            None => match system_total_mib {
                Some(total) => {
                    let limit = total as u128 * 80 / 100;
                    let mut s = String::from_str("derived from system memory (80 percent of ");
                    s.append(decimal_string(total as u128).as_str());
                    s.append(" MiB)");
                    (limit, s)
                },
                None => (0, String::from_str("nothing on this machine says what it holds")),
            },
        };
        let limit_mib = if limit == 0 {
            None
        } else if limit <= 0xffff_ffffu128 {
            Some(limit as u32)
        } else {
            Some(0xffff_ffffu32)
        };
        Budget { limit_mib, probe, source }
    }

    /// The budget a value someone set says, on a machine whose figures come
    /// from `probe`. An unset or empty value is not this function's: the
    /// machine then sets its own, as [`Budget::derived`] does.
    ///
    /// # Errors
    ///
    /// Returns a [`Failure`] when the value is not a number. A budget someone
    /// tried to set and mistyped must not silently become whatever the
    /// machine would have chosen, because the difference is whether the
    /// ceiling is the one the operator meant.
    pub fn stated(value: &str, probe: Probe) -> (r: Result<Self, Failure>)
        ensures
            match parse_u32(trim(value@)) {
                Some(limit) => r matches Ok(b) && b.ceiling() == Some(limit) && b.origin()
                    == "from MAESTRO_MEMORY_BUDGET_MIB"@ && b.figures() == probe,
                None => r matches Err(Failure::Unavailable(m)) && m@ == budget_refusal(value@),
            },
    {
        match read_u32(&trimmed(&chars_of(value))) {
            Some(limit) => Ok(
                Budget {
                    limit_mib: Some(limit),
                    probe,
                    source: String::from_str("from MAESTRO_MEMORY_BUDGET_MIB"),
                },
            ),
            None => {
                let mut m = String::from_str("MAESTRO_MEMORY_BUDGET_MIB carries '");
                m.append(value);
                m.append(
                    "', which is not a number of mebibytes; unset it for a budget the machine sets, or give it a whole number",
                );
                Err(Failure::Unavailable(m))
            },
        }
    }

    /// The ceiling, or `None` when no budget applies.
    ///
    /// Read by the command that starts the router, which says at startup
    /// whether anything will ever be evicted.
    pub fn limit_mib(&self) -> (r: Option<u32>)
        ensures
            r == self.ceiling(),
    {
        self.limit_mib
    }

    /// Where the ceiling came from, in words.
    pub fn source(&self) -> (r: &str)
        ensures
            r@ == self.origin(),
    {
        self.source.as_str()
    }

    /// Where the machine's own figures come from.
    pub fn probe(&self) -> (r: &Probe)
        ensures
            *r == self.figures(),
    {
        &self.probe
    }
}

} // verus!
