//! What the router says about memory before it serves anything.
//!
//! A line each for the budget, what the residents reserve of it, the idle
//! window and the admission wait, and the arithmetic behind them. What they say is load-bearing
//! -- an operator sets a ceiling from these numbers -- so they are composed
//! here, where their words are stated, rather than in the program that
//! prints them.

use vstd::prelude::*;

use crate::text::{decimal, decimal_string};

verus! {

/// The line that says whether anything will ever be evicted.
pub open spec fn budget_line(limit_mib: Option<u32>) -> Seq<char> {
    match limit_mib {
        Some(limit) => "memory budget: "@ + decimal(limit as nat)
            + " MiB, so models are unloaded to make room"@,
        None => "memory budget: none set, so nothing is ever unloaded (set MAESTRO_MEMORY_BUDGET_MIB)"@,
    }
}

/// The line that says what the residents hold, and what that leaves.
pub open spec fn reservation_line(limit_mib: Option<u32>, reserved_mib: u64) -> Seq<char> {
    match limit_mib {
        None => "residents reserve "@ + decimal(reserved_mib as nat) + " MiB, against no budget"@,
        Some(limit) => if limit >= reserved_mib {
            "residents reserve "@ + decimal(reserved_mib as nat) + " MiB of "@ + decimal(
                limit as nat,
            ) + " MiB, leaving "@ + decimal((limit - reserved_mib) as nat)
                + " MiB for everything else"@
        } else {
            "residents reserve "@ + decimal(reserved_mib as nat) + " MiB, more than the "@
                + decimal(limit as nat) + " MiB budget: what does not fit is refused"@
        },
    }
}

/// Whether anything will ever be evicted.
///
/// Said at startup rather than left to be discovered: the difference between a
/// router that swaps models and one that fills memory until a load fails is
/// this single value, and an operator who mistyped the variable would
/// otherwise find out only under load.
pub fn budget(limit_mib: Option<u32>) -> (r: String)
    ensures
        r@ == budget_line(limit_mib),
{
    match limit_mib {
        Some(limit) => {
            let mut s = String::from_str("memory budget: ");
            s.append(decimal_string(limit as u128).as_str());
            s.append(" MiB, so models are unloaded to make room");
            s
        },
        None => String::from_str(
            "memory budget: none set, so nothing is ever unloaded (set MAESTRO_MEMORY_BUDGET_MIB)",
        ),
    }
}

/// What the residents hold, and what that leaves for everything else.
///
/// A resident is memory the router promises never to reclaim, so a ceiling
/// that covers the residents but not the largest model beside them refuses
/// that model permanently. An operator who learns that from a refusal under
/// load learns it too late, which is what this line exists to prevent.
pub fn reservation(limit_mib: Option<u32>, reserved_mib: u64) -> (r: String)
    ensures
        r@ == reservation_line(limit_mib, reserved_mib),
{
    let mut s = String::from_str("residents reserve ");
    s.append(decimal_string(reserved_mib as u128).as_str());
    match limit_mib {
        None => {
            s.append(" MiB, against no budget");
        },
        Some(limit) => {
            let limit = limit as u64;
            if limit >= reserved_mib {
                s.append(" MiB of ");
                s.append(decimal_string(limit as u128).as_str());
                s.append(" MiB, leaving ");
                s.append(decimal_string((limit - reserved_mib) as u128).as_str());
                s.append(" MiB for everything else");
            } else {
                s.append(" MiB, more than the ");
                s.append(decimal_string(limit as u128).as_str());
                s.append(" MiB budget: what does not fit is refused");
            }
        },
    }
    s
}

/// What the idle window line says.
pub open spec fn idle_line(seconds: Option<u64>) -> Seq<char> {
    match seconds {
        Some(n) => "idle window: "@ + decimal(n as nat)
            + " seconds, so an unused on-demand model is unloaded after that long"@,
        None => "idle window: none set, so nothing is ever unloaded for sitting idle (set MAESTRO_IDLE_UNLOAD_SECONDS)"@,
    }
}

/// The idle window, as the router states it at startup: how long an unused
/// on-demand model is held, or that nothing is unloaded for sitting idle.
pub fn idle_window(seconds: Option<u64>) -> (r: String)
    ensures
        r@ == idle_line(seconds),
{
    match seconds {
        Some(n) => {
            let mut s = String::from_str("idle window: ");
            s.append(decimal_string(n as u128).as_str());
            s.append(" seconds, so an unused on-demand model is unloaded after that long");
            s
        },
        None => String::from_str(
            "idle window: none set, so nothing is ever unloaded for sitting idle (set MAESTRO_IDLE_UNLOAD_SECONDS)",
        ),
    }
}

/// What the admission wait line says.
pub open spec fn wait_line(seconds: u64) -> Seq<char> {
    if seconds == 0 {
        "admission wait: none, so a request that finds its room held is refused at once"@
    } else {
        "admission wait: up to "@ + decimal(seconds as nat)
            + " seconds for room held by a model that is answering"@
    }
}

/// The admission wait, as the router states it at startup: how long a
/// request waits for room a busy model holds, or that it is refused at once.
pub fn admission_wait(seconds: u64) -> (r: String)
    ensures
        r@ == wait_line(seconds),
{
    if seconds == 0 {
        String::from_str("admission wait: none, so a request that finds its room held is refused at once")
    } else {
        let mut s = String::from_str("admission wait: up to ");
        s.append(decimal_string(seconds as u128).as_str());
        s.append(" seconds for room held by a model that is answering");
        s
    }
}

} // verus!
