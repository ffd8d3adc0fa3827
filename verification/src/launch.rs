//! Turning one catalog entry into a server's command line, and the failures
//! a start can end in.
//!
//! Every failure names the entry it came from. A message saying only that a
//! health check failed sends the reader back to the catalog to guess which
//! model it was about. Spawning, polling for readiness and stopping a process
//! are the program's business; what this library holds is what those steps
//! decide from.

pub mod invocation;
pub mod server;

use vstd::prelude::*;

use crate::text::{chars_of, read_u64, views, whole_number, words, words_of};

pub use server::Server;

verus! {

/// Why a server could not be located, started, or given room.
///
/// A child that missed its startup budget is a gateway timeout, and a child
/// that could never start is a bad gateway, so the difference has to survive
/// the trip out of this module. Room that is held by something that will
/// finish is worth waiting for; room that nothing will ever give back is not.
#[derive(Debug, Clone, PartialEq, Eq)]
pub enum Failure {
    /// A child started, and did not answer inside the entry's startup budget.
    NotReady(String),
    /// A server could not be located, or a child could not be started at all.
    Unavailable(String),
    /// The room the model needs is held by something that may finish.
    Contended(String),
    /// Nothing can be unloaded to make room.
    Refused(String),
}

/// The words a failure carries.
pub open spec fn failure_text(f: Failure) -> Seq<char> {
    match f {
        Failure::NotReady(m) => m@,
        Failure::Unavailable(m) => m@,
        Failure::Contended(m) => m@,
        Failure::Refused(m) => m@,
    }
}

impl Failure {
    /// The words this failure carries, as a person reads them.
    pub fn message(&self) -> (r: &str)
        ensures
            r@ == failure_text(*self),
    {
        match self {
            Failure::NotReady(m) => m.as_str(),
            Failure::Unavailable(m) => m.as_str(),
            Failure::Contended(m) => m.as_str(),
            Failure::Refused(m) => m.as_str(),
        }
    }
}

/// The status a health check's first line carries: its second word, read
/// as a number, when that is one.
///
/// `llama-server` answers 503 while a model is loading and 200 once it will
/// serve, which is the whole contract a readiness poll depends on.
pub open spec fn status_in(line: Seq<char>) -> Option<u16> {
    let w = words(line);
    if w.len() >= 2 {
        match whole_number(w[1]) {
            Some(n) => if n <= u16::MAX {
                Some(n as u16)
            } else {
                None
            },
            None => None,
        }
    } else {
        None
    }
}

/// The status code on a reply's first line, such as `HTTP/1.1 200 OK`.
pub fn status_of(line: &str) -> (r: Option<u16>)
    ensures
        r == status_in(line@),
{
    let w = words_of(&chars_of(line));
    if w.len() < 2 {
        return None;
    }
    assert(views(w@)[1] == w@[1]@);
    match read_u64(&w[1]) {
        Some(n) => if n <= u16::MAX as u64 {
            Some(n as u16)
        } else {
            None
        },
        None => None,
    }
}

} // verus!
