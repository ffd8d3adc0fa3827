//! How long a request waits for room before it is refused.
//!
//! When every model that could go is *busy* -- something is reading from it
//! -- there is nothing to evict without truncating somebody's answer, and the
//! request that wanted the room has two honest options: be told to come back,
//! or wait. A wait here is the retry loop written once, in the place that
//! knows when the room actually frees up. Bounded, because the alternative is
//! a request that never returns.

use vstd::prelude::*;

use crate::launch::Failure;
use crate::text::{chars_of, decimal, parse_u64, read_u64, trim, trimmed};
use crate::time::Span;

verus! {

/// Where the wait is configured.
pub const VARIABLE: &'static str = "MAESTRO_ADMISSION_WAIT_SECONDS";

/// How long to wait by default, in seconds: long enough to outlast an
/// ordinary answer, short enough that a caller with no timeout of its own is
/// not held for the length of a long generation.
pub const DEFAULT_SECONDS: u64 = 60;

/// How long a request waits for room rather than being refused.
///
/// Zero means refuse immediately. Given a meaning on purpose rather than
/// treated as unset: an operator writing `0` into a variable is saying "do
/// not wait", and reading that as "wait the default" would be the opposite of
/// what they said.
pub struct Wait(Span);

/// Why a configured wait is refused.
pub open spec fn wait_refusal(text: Seq<char>) -> Seq<char> {
    "MAESTRO_ADMISSION_WAIT_SECONDS carries '"@ + text
        + "', which is not a whole number of seconds; unset it for the default of "@ + decimal(
        DEFAULT_SECONDS as nat,
    ) + ", or set 0 to refuse rather than wait"@
}

impl Wait {
    /// How long this wait is.
    pub closed spec fn span(&self) -> Span {
        self.0
    }

    /// A wait of exactly this long.
    ///
    /// Separate from reading the environment: a test states the wait it
    /// means directly rather than setting a process-global variable that
    /// every other test in its binary would race against.
    pub fn new(wait: Span) -> (w: Self)
        ensures
            w.span() == wait,
    {
        Wait(wait)
    }

    /// The wait when nothing is configured.
    pub fn default_wait() -> (w: Self)
        ensures
            w.span().total() == DEFAULT_SECONDS as nat * 1_000_000_000,
            w.span().whole_secs() == DEFAULT_SECONDS,
    {
        Wait(Span::from_secs(DEFAULT_SECONDS))
    }

    /// The wait a configured value sets: `None` for an unset or empty value,
    /// which means the default.
    ///
    /// # Errors
    ///
    /// Returns a [`Failure`] when the value is not a whole number of seconds.
    /// A wait someone tried to set and mistyped must not silently become the
    /// default, because the difference is whether a caller is held or
    /// answered.
    pub fn configured_from(value: Option<&str>) -> (r: Result<Self, Failure>)
        ensures
            match value {
                None => r matches Ok(w) && w.span().total() == DEFAULT_SECONDS as nat
                    * 1_000_000_000,
                Some(v) => if v@.len() == 0 {
                    r matches Ok(w) && w.span().total() == DEFAULT_SECONDS as nat * 1_000_000_000
                } else {
                    match parse_u64(trim(v@)) {
                        Some(secs) => r matches Ok(w) && w.span().total() == secs as nat
                            * 1_000_000_000 && w.span().whole_secs() == secs,
                        None => r matches Err(Failure::Unavailable(m)) && m@ == wait_refusal(v@),
                    }
                },
            },
    {
        let text = match value {
            None => {
                return Ok(Wait::default_wait());
            },
            Some(t) => t,
        };
        let chars = chars_of(text);
        if chars.len() == 0 {
            return Ok(Wait::default_wait());
        }
        match read_u64(&trimmed(&chars)) {
            Some(secs) => Ok(Wait(Span::from_secs(secs))),
            None => {
                let mut m = String::from_str("MAESTRO_ADMISSION_WAIT_SECONDS carries '");
                m.append(text);
                m.append(
                    "', which is not a whole number of seconds; unset it for the default of ",
                );
                m.append(crate::text::decimal_string(DEFAULT_SECONDS as u128).as_str());
                m.append(", or set 0 to refuse rather than wait");
                Err(Failure::Unavailable(m))
            },
        }
    }

    /// How long to wait.
    pub fn duration(&self) -> (d: Span)
        ensures
            d == self.span(),
    {
        self.0
    }

    /// Whether anything waits at all.
    pub fn waits(&self) -> (b: bool)
        ensures
            b == (self.span().total() != 0),
    {
        !self.0.is_zero()
    }
}

} // verus!
