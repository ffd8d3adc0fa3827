//! Finding the server binary, and what a start decides along the way.
//!
//! Whether a file is there and what the search path holds are questions for
//! the machine; what is decided from the answers -- which binary serves an
//! entry, whether a model file can be started from, what each round of
//! waiting for a child to become ready leads to, when a lost start is tried
//! again, and what each failure says -- is stated here.

use vstd::prelude::*;

use super::{failure_text, Failure};
use crate::catalog::path::joined;
use crate::catalog::Entry;
use crate::text::{decimal, decimal_string};
use crate::time::Span;

verus! {

/// What the server is called. Located on the search path, never bundled.
pub const BINARY_NAME: &'static str = "llama-server";

/// How many spawns one start makes before a lost port race is reported as
/// the child failing. Every attempt after the first follows a loss.
pub const ATTEMPTS: usize = 4;

/// The server binary this router runs children from.
///
/// Located, never bundled: a configured path when there is one, otherwise
/// whatever the operating system finds on the search path.
#[derive(Debug)]
pub struct Server {
    binary: String,
}

/// What a named runtime is called on disk.
pub open spec fn runtime_file(runtime: Seq<char>) -> Seq<char> {
    "llama-server-"@ + runtime
}

/// What a named runtime is called on disk: the server's name and the
/// runtime's, so both callers that look for one look for the same file.
pub fn runtime_named(runtime: &str) -> (r: String)
    ensures
        r@ == runtime_file(runtime@),
{
    let mut s = String::from_str("llama-server-");
    s.append(runtime);
    s
}

/// Why a start failed with nothing to start from: the model file is not at
/// the resolved path.
pub open spec fn missing_model_text(id: Seq<char>, model: Seq<char>) -> Seq<char> {
    "entry '"@ + id + "': no model file at '"@ + model + "'"@
}

impl Server {
    /// The binary this server runs.
    pub closed spec fn path(&self) -> Seq<char> {
        self.binary@
    }

    /// The binary, as the program spawns it.
    pub fn binary(&self) -> (r: &str)
        ensures
            r@ == self.path(),
    {
        self.binary.as_str()
    }

    /// The server binary, from where it was looked for: `configured`, with
    /// whether a file is there; else what the search path held under
    /// [`BINARY_NAME`], if anything.
    ///
    /// # Errors
    ///
    /// Returns a [`Failure`] when a configured path does not exist, or when
    /// nothing named `llama-server` is on the search path.
    pub fn located(configured: Option<&str>, configured_is_file: bool, on_search_path: Option<String>) -> (r: Result<Self, Failure>)
        ensures
            match configured {
                Some(path) => if configured_is_file {
                    r matches Ok(s) && s.path() == path@
                } else {
                    r matches Err(f) && f is Unavailable && failure_text(f)
                        == "the configured server binary is not there: '"@ + path@ + "'"@
                },
                None => match on_search_path {
                    Some(found) => r matches Ok(s) && s.path() == found@,
                    None => r matches Err(f) && f is Unavailable && failure_text(f)
                        == "no server binary was configured, and no 'llama-server' was found on the search path"@,
                },
            },
    {
        match configured {
            Some(path) => {
                if configured_is_file {
                    Ok(Server { binary: String::from_str(path) })
                } else {
                    let mut m = String::from_str("the configured server binary is not there: '");
                    m.append(path);
                    m.append("'");
                    Err(Failure::Unavailable(m))
                }
            },
            None => match on_search_path {
                Some(found) => Ok(Server { binary: found }),
                None => Err(
                    Failure::Unavailable(
                        String::from_str(
                            "no server binary was configured, and no 'llama-server' was found on the search path",
                        ),
                    ),
                ),
            },
        }
    }

    /// Where this entry's model file should be, under a models root.
    pub fn model_path(entry: &Entry, root: &str) -> (r: String)
        ensures
            r@ == joined(root@, entry.path@),
    {
        entry.path.resolve(root)
    }

    /// Where this entry's model file is, given whether the machine found a
    /// file at [`Server::model_path`].
    ///
    /// Asked before doing something that cannot be undone: ending a warm
    /// model to make room, and only then discovering that the wanted one has
    /// no file, leaves the operator with neither.
    ///
    /// # Errors
    ///
    /// Returns a [`Failure`] when the catalog names a file that is not there,
    /// which is a stale path, an unmounted root, or a half-finished download.
    pub fn model_file(entry: &Entry, root: &str, is_file: bool) -> (r: Result<String, Failure>)
        ensures
            is_file ==> (r matches Ok(p) && p@ == joined(root@, entry.path@)),
            !is_file ==> (r matches Err(f) && f is Unavailable && failure_text(f)
                == missing_model_text(entry.id@, joined(root@, entry.path@))),
    {
        let model = entry.path.resolve(root);
        if is_file {
            Ok(model)
        } else {
            let mut m = String::from_str("entry '");
            m.append(entry.id.as_str());
            m.append("': no model file at '");
            m.append(model.as_str());
            m.append("'");
            Err(Failure::Unavailable(m))
        }
    }

    /// The binary this entry is served from, given where the search path put
    /// the runtime it names, if it names one.
    ///
    /// The one the router was started with, unless the entry names a runtime.
    /// A named one resolves on the search path as `llama-server-<name>`: the
    /// catalog says *which*, the machine says *where*.
    ///
    /// # Errors
    ///
    /// Returns a [`Failure`] when the entry names a runtime the search path
    /// does not carry.
    pub fn binary_for(&self, entry: &Entry, runtime_found: Option<String>) -> (r: Result<String, Failure>)
        ensures
            match entry.runtime {
                None => r matches Ok(b) && b@ == self.path(),
                Some(runtime) => match runtime_found {
                    Some(found) => r matches Ok(b) && b@ == found@,
                    None => r matches Err(f) && f is Unavailable && failure_text(f) == "entry '"@
                        + entry.id@ + "' needs the '"@ + runtime@
                        + "' runtime, and nothing named '"@ + runtime_file(runtime@)
                        + "' is on the search path"@,
                },
            },
    {
        match &entry.runtime {
            None => Ok(self.binary.clone()),
            Some(runtime) => match runtime_found {
                Some(found) => Ok(found),
                None => {
                    let mut m = String::from_str("entry '");
                    m.append(entry.id.as_str());
                    m.append("' needs the '");
                    m.append(runtime.as_str());
                    m.append("' runtime, and nothing named '");
                    m.append(runtime_named(runtime.as_str()).as_str());
                    m.append("' is on the search path");
                    Err(Failure::Unavailable(m))
                },
            },
        }
    }
}

/// Whether a failed start is tried again: only a spawn that died without
/// ever answering a probe -- a lost port race -- and only while attempts
/// remain.
pub fn retries(lost: bool, attempts: usize) -> (b: bool)
    ensures
        b == (lost && attempts < ATTEMPTS),
{
    lost && attempts < ATTEMPTS
}

/// The failure of a child that did not answer inside its startup budget.
/// Why a child that missed its startup budget failed.
pub open spec fn not_ready_text(id: Seq<char>, seconds: u32) -> Seq<char> {
    "entry '"@ + id + "': not ready within its startup budget of "@ + decimal(seconds as nat) + " seconds"@
}

/// Why a child that exited while loading failed, with the status it left.
pub open spec fn exited_text(id: Seq<char>, status: Seq<char>) -> Seq<char> {
    "entry '"@ + id + "': the server exited while loading ("@ + status + ")"@
}

/// What one round of waiting for a child saw: that it had exited, with its
/// status; the status its health check answered; or no answer at all.
#[derive(Debug, Clone, PartialEq, Eq)]
pub enum Seen {
    Exited(String),
    Answered(u16),
    Silent,
}

/// What a round of waiting leads to: the child is ready; wait and ask
/// again, remembering whether a health check has ever been answered; or the
/// start failed, and whether it was lost before the child ever answered.
#[derive(Debug, Clone, PartialEq, Eq)]
pub enum Next {
    Ready,
    Poll { ever_connected: bool },
    Fail(Failure, bool),
}

/// What a round of waiting for a child leads to, `elapsed` after it was
/// started, under a budget of `budget_seconds`.
///
/// A child that exited fails with its status, lost exactly when nothing
/// ever answered it. A health check answering 200 means ready. Any other
/// answer, or none, waits again -- unless the budget has run out, when the
/// start fails as not ready and is not lost.
pub fn readiness_step(id: &str, budget_seconds: u32, elapsed: Span, ever_connected: bool, seen: Seen) -> (r: Next)
    ensures
        match seen {
            Seen::Exited(status) => r matches Next::Fail(f, lost) && f is Unavailable && failure_text(f)
                == exited_text(id@, status@) && lost == !ever_connected,
            Seen::Answered(200) => r is Ready,
            _ => if elapsed.total() >= budget_seconds as nat * 1_000_000_000 {
                r matches Next::Fail(f, lost) && f is NotReady && failure_text(f) == not_ready_text(
                    id@,
                    budget_seconds,
                ) && !lost
            } else {
                r == Next::Poll { ever_connected: ever_connected || seen is Answered }
            },
        },
{
    match seen {
        Seen::Exited(status) => Next::Fail(exited(id, status.as_str()), !ever_connected),
        Seen::Answered(200) => Next::Ready,
        _ => {
            let answered = match seen {
                Seen::Answered(_) => true,
                _ => false,
            };
            if elapsed.as_nanos() >= budget_seconds as u128 * 1_000_000_000 {
                Next::Fail(not_ready(id, budget_seconds), false)
            } else {
                Next::Poll { ever_connected: ever_connected || answered }
            }
        },
    }
}

pub fn not_ready(id: &str, seconds: u32) -> (f: Failure)
    ensures
        f is NotReady,
        failure_text(f) == "entry '"@ + id@ + "': not ready within its startup budget of "@
            + decimal(seconds as nat) + " seconds"@,
{
    let mut m = String::from_str("entry '");
    m.append(id);
    m.append("': not ready within its startup budget of ");
    m.append(decimal_string(seconds as u128).as_str());
    m.append(" seconds");
    Failure::NotReady(m)
}

/// The failure of a child that exited while it loaded, with the status it
/// left as the machine says it.
pub fn exited(id: &str, status: &str) -> (f: Failure)
    ensures
        f is Unavailable,
        failure_text(f) == "entry '"@ + id@ + "': the server exited while loading ("@ + status@
            + ")"@,
{
    let mut m = String::from_str("entry '");
    m.append(id);
    m.append("': the server exited while loading (");
    m.append(status);
    m.append(")");
    Failure::Unavailable(m)
}

/// The failure of a start that found no loopback port free.
pub fn no_port(id: &str, error: &str) -> (f: Failure)
    ensures
        f is Unavailable,
        failure_text(f) == "entry '"@ + id@ + "': no loopback port was free: "@ + error@,
{
    let mut m = String::from_str("entry '");
    m.append(id);
    m.append("': no loopback port was free: ");
    m.append(error);
    Failure::Unavailable(m)
}

/// The failure of a binary that would not start at all.
pub fn would_not_start(id: &str, binary: &str, error: &str) -> (f: Failure)
    ensures
        f is Unavailable,
        failure_text(f) == "entry '"@ + id@ + "': the server binary '"@ + binary@
            + "' would not start: "@ + error@,
{
    let mut m = String::from_str("entry '");
    m.append(id);
    m.append("': the server binary '");
    m.append(binary);
    m.append("' would not start: ");
    m.append(error);
    Failure::Unavailable(m)
}

} // verus!
