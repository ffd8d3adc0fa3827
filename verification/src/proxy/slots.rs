//! The decisions the router's slots take, apart from the locks they take
//! them under.
//!
//! One slot per entry holds whatever child is serving it. Which of them to
//! empty, when a wait for room has gone on long enough, and what to say about
//! it are decided here, from values; holding the locks, counting readers and
//! stopping processes is the program's business.

use vstd::prelude::*;

use crate::admission::Decision;
use crate::catalog::Entry;
use crate::memory::Measurement;
use crate::launch::{failure_text, Failure};
use crate::text::{decimal, decimal_string, join, joined_with};
use crate::time::{Moment, Span};

verus! {

/// Whether a use is old enough to be idle past a window: the time since it
/// is at least the window.
///
/// A use from this very instant is not stale against any window, however
/// large: the time since it is zero.
pub fn stale(now: Moment, last_used: Moment, window: Span) -> (b: bool)
    ensures
        b == (now.since(last_used) >= window.total()),
{
    now.elapsed_since(&last_used) as u128 >= window.as_nanos()
}

/// What the loop that makes room does next, given what admission decided.
pub enum RoomStep {
    /// The loop is over, with this outcome.
    Done(Result<(), Failure>),
    /// These are to be unloaded first, coldest first.
    Unload(Vec<String>),
    /// The room is held, for the reason given; wait and ask again if the
    /// wait allows.
    Held(String),
}

/// What the loop that makes room does with a decision: start at once when it
/// fits, unload when it names what to unload, wait when the room will free
/// itself, and give up when it never will.
pub fn after_decision(decision: Decision) -> (r: RoomStep)
    ensures
        match decision {
            Decision::Fits => r matches RoomStep::Done(Ok(())),
            Decision::Unload(ids) => r matches RoomStep::Unload(v) && v@ == ids@,
            Decision::Blocked(m) => r matches RoomStep::Held(h) && h@ == m@,
            Decision::Refuse(m) => r matches RoomStep::Done(Err(Failure::Refused(f))) && f@
                == m@,
        },
{
    match decision {
        Decision::Fits => RoomStep::Done(Ok(())),
        Decision::Unload(ids) => RoomStep::Unload(ids),
        Decision::Blocked(m) => RoomStep::Held(m),
        Decision::Refuse(m) => RoomStep::Done(Err(Failure::Refused(m))),
    }
}

/// What the room was held by when an unload found a reader had reached an
/// entry first.
pub fn reached_first(entry_id: &str, blocker: &str) -> (r: String)
    ensures
        r@ == "'"@ + entry_id@ + "' needs room held by '"@ + blocker@
            + "', which a request reached first"@,
{
    let mut s = String::from_str("'");
    s.append(entry_id);
    s.append("' needs room held by '");
    s.append(blocker);
    s.append("', which a request reached first");
    s
}

/// What the contended refusal says once waiting is over.
pub open spec fn contended_text(entry_id: Seq<char>, held: Seq<char>, waited: Span) -> Seq<char> {
    if waited.total() == 0 {
        held
            + "; this may succeed on a retry, or set MAESTRO_ADMISSION_WAIT_SECONDS to wait for the room"@
    } else {
        held + "; '"@ + entry_id + "' waited "@ + decimal(waited.whole_secs()) + "s and the room did not free up"@
    }
}

/// The refusal once the wait for room is over and the room is still held:
/// contended, because what holds it may finish, and saying how long was
/// waited -- or, with no wait configured, how to ask for one.
pub fn contended(entry_id: &str, held: &str, waited: Span) -> (f: Failure)
    ensures
        f is Contended,
        failure_text(f) == contended_text(entry_id@, held@, waited),
{
    let mut m = String::from_str(held);
    if waited.is_zero() {
        m.append(
            "; this may succeed on a retry, or set MAESTRO_ADMISSION_WAIT_SECONDS to wait for the room",
        );
    } else {
        m.append("; '");
        m.append(entry_id);
        m.append("' waited ");
        m.append(decimal_string(waited.as_secs() as u128).as_str());
        m.append("s and the room did not free up");
    }
    Failure::Contended(m)
}

/// The line said when entries are unloaded to make room.
pub fn unloading_line(entry_id: &str, ids: &Vec<String>) -> (r: String)
    ensures
        r@ == entry_id@ + ": unloading "@ + joined_with(ids@.map_values(|p: String| p@), ", "@)
            + " to make room"@,
{
    let mut s = String::from_str(entry_id);
    s.append(": unloading ");
    s.append(join(ids, ", ").as_str());
    s.append(" to make room");
    s
}

/// A figure in gibibytes to one decimal place, rounded down, or the
/// admission that there is none.
pub open spec fn gibibytes_text(mib: Option<u64>) -> Seq<char> {
    match mib {
        Some(m) => {
            let tenths = (m as nat * 10) / 1024;
            decimal(tenths / 10) + "."@ + decimal(tenths % 10) + " GiB"@
        },
        None => "nothing readable"@,
    }
}

/// A figure in gibibytes to one decimal place, or the admission that there
/// is none.
///
/// Integer arithmetic on purpose: a tenth of a gibibyte is the precision an
/// operator reads at.
pub fn gibibytes(mib: Option<u64>) -> (r: String)
    ensures
        r@ == gibibytes_text(mib),
{
    match mib {
        Some(m) => {
            let tenths: u128 = m as u128 * 10 / 1024;
            let mut s = decimal_string(tenths / 10);
            s.append(".");
            s.append(decimal_string(tenths % 10).as_str());
            s.append(" GiB");
            s
        },
        None => String::from_str("nothing readable"),
    }
}

/// A span in seconds to the nearest tenth, a half rounded up.
pub open spec fn seconds_text(nanos: nat) -> Seq<char> {
    let tenths = (nanos + 50_000_000) / 100_000_000;
    decimal(tenths / 10) + "."@ + decimal(tenths % 10)
}

/// What a finished load says.
pub open spec fn ready_text(id: Seq<char>, took: nat, measured: Measurement, estimate: u32) -> Seq<char> {
    id + ": ready in "@ + seconds_text(took) + " s, measured "@ + gibibytes_text(measured.resident_mib)
        + " resident and "@ + gibibytes_text(measured.device_mib) + " on the device (catalog said "@
        + decimal(estimate as nat) + " MiB)"@
}

/// The line a finished load says: how long it took, what the machine saw it
/// holding on each side, and what the catalog had said -- so an estimate
/// that is wrong is visible the first time the model loads rather than the
/// first time something is refused because of it.
pub fn ready_line(entry: &Entry, took: Span, measured: &Measurement) -> (r: String)
    ensures
        r@ == ready_text(entry.id@, took.total(), *measured, entry.memory_estimate_mib),
{
    proof {
        took.lemma_total_bound();
    }
    let tenths: u128 = (took.as_nanos() + 50_000_000) / 100_000_000;
    let mut s = String::from_str(entry.id.as_str());
    s.append(": ready in ");
    s.append(decimal_string(tenths / 10).as_str());
    s.append(".");
    s.append(decimal_string(tenths % 10).as_str());
    s.append(" s, measured ");
    s.append(gibibytes(measured.resident_mib).as_str());
    s.append(" resident and ");
    s.append(gibibytes(measured.device_mib).as_str());
    s.append(" on the device (catalog said ");
    s.append(decimal_string(entry.memory_estimate_mib as u128).as_str());
    s.append(" MiB)");
    s
}

/// The shortest pause between two sweeps for idle entries.
pub const MIN_SWEEP_NANOS: u128 = 100_000_000;

/// How often a window is swept: half the window, and never more often than
/// the shortest pause.
pub fn sweep_interval(window: Span) -> (r: Span)
    ensures
        r.total() == (if window.total() / 2 >= MIN_SWEEP_NANOS {
            window.total() / 2
        } else {
            MIN_SWEEP_NANOS as nat
        }),
{
    let half = window.as_nanos() / 2;
    let n = if half >= MIN_SWEEP_NANOS {
        half
    } else {
        MIN_SWEEP_NANOS
    };
    proof {
        window.lemma_total_bound();
    }
    Span::from_nanos(n)
}

} // verus!
