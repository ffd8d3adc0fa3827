//! How long an on-demand model may sit unused, and what that expires.
//!
//! A pure decision, stated the way `admission` is: from values, with no
//! process, no socket and no clock waited on. This module decides what has
//! gone idle. It does not touch a slot, print a line, or run on a thread.

use vstd::prelude::*;

use crate::admission::{
    age_key, by_age, coldest_first, ids_of, lemma_by_age, sort_by_age, Budget, Loaded,
};
use crate::catalog::Residency;
use crate::launch::Failure;
use crate::text::{chars_of, parse_u64, read_u64, trim, trimmed};
use crate::time::{Moment, Span};

verus! {

/// Where the idle window is configured.
pub const VARIABLE: &'static str = "MAESTRO_IDLE_UNLOAD_SECONDS";

/// What the router needs to know about one machine's memory: what may be
/// held at once, and how long unused memory may be held. The two are read
/// independently and travel together.
pub struct Limits {
    pub budget: Budget,
    pub idle_window: IdleWindow,
}

impl Limits {
    /// Carries a budget and an idle window that were decided independently.
    pub fn new(budget: Budget, idle_window: IdleWindow) -> (l: Self)
        ensures
            l.budget == budget,
            l.idle_window == idle_window,
    {
        Limits { budget, idle_window }
    }
}

/// How long a loaded on-demand model may go unused before it is unloaded.
///
/// `None` means never: what an unset or zero setting both mean. Zero gets
/// that meaning on purpose -- an operator writing "off" into a variable that
/// is already in a script must not get permanent thrash from a window that
/// expires everything on every sweep.
pub struct IdleWindow(Option<Span>);

/// Whether a loaded entry has gone idle: on-demand, not busy, and unused for
/// at least the window.
pub open spec fn is_stale(e: Loaded, window: nat, now: Moment) -> bool {
    e.residency == Residency::OnDemand && !e.busy && now.since(e.last_used) >= window
}

/// The entries that have gone idle, in the order they are held.
pub open spec fn stale(loaded: Seq<Loaded>, window: nat, now: Moment) -> Seq<Loaded>
    decreases loaded.len(),
{
    if loaded.len() == 0 {
        Seq::empty()
    } else if is_stale(loaded.last(), window, now) {
        stale(loaded.drop_last(), window, now).push(loaded.last())
    } else {
        stale(loaded.drop_last(), window, now)
    }
}

/// What a window expires: nothing when it is off, else the identifiers of
/// the entries that have gone idle, coldest first.
pub open spec fn expired_ids(window: Option<Span>, loaded: Seq<Loaded>, now: Moment) -> Seq<
    Seq<char>,
> {
    match window {
        None => Seq::empty(),
        Some(w) => ids_of(by_age(stale(loaded, w.total(), now))),
    }
}

/// Why a configured window is refused.
pub open spec fn window_refusal(text: Seq<char>) -> Seq<char> {
    "MAESTRO_IDLE_UNLOAD_SECONDS carries '"@ + text
        + "', which is not a whole number of seconds; unset it for no idle window, or give it a whole number"@
}

/// A window of whole seconds, as a setting gives it: off at zero.
pub open spec fn window_of_seconds(secs: u64) -> Option<nat> {
    if secs == 0 {
        None
    } else {
        Some(secs as nat * 1_000_000_000)
    }
}

impl IdleWindow {
    /// The window, or `None` when idle unloading is off.
    pub closed spec fn window(&self) -> Option<Span> {
        self.0
    }

    /// The window's length in nanoseconds, or `None` when it is off.
    pub open spec fn length(&self) -> Option<nat> {
        match self.window() {
            Some(w) => Some(w.total()),
            None => None,
        }
    }

    /// A window that is off: nothing is ever unloaded for sitting idle.
    pub fn off() -> (w: Self)
        ensures
            w.window() is None,
    {
        IdleWindow(None)
    }

    /// A window of exactly this duration, or off when it is zero.
    ///
    /// Separate from reading the environment: a test states the window it
    /// means directly, including one shorter than a second, which a setting
    /// in whole seconds cannot express at all.
    pub fn new(window: Span) -> (w: Self)
        ensures
            w.window() == (if window.total() == 0 {
                None
            } else {
                Some(window)
            }),
    {
        if window.is_zero() {
            IdleWindow(None)
        } else {
            IdleWindow(Some(window))
        }
    }

    /// The configured duration, or none when idle unloading is off.
    pub fn duration(&self) -> (r: Option<Span>)
        ensures
            r == self.window(),
    {
        self.0
    }

    /// The configured window in whole seconds, or none when it is off.
    ///
    /// Read by the command that starts the router, which says at startup
    /// whether anything will ever be unloaded for sitting idle.
    pub fn seconds(&self) -> (r: Option<u64>)
        ensures
            r == match self.window() {
                Some(w) => Some(w.whole_secs() as u64),
                None => None::<u64>,
            },
    {
        match self.0 {
            Some(w) => Some(w.as_secs()),
            None => None,
        }
    }

    /// The identifiers to unload, coldest first.
    ///
    /// On-demand, not busy, and unused for at least the window. Coldest
    /// first, matching `Budget::consider`, so a reader does not have to
    /// wonder whether the two orders differ.
    pub fn expired(&self, loaded: &[Loaded], now: Moment) -> (r: Vec<String>)
        ensures
            r@.map_values(|n: String| n@) == expired_ids(self.window(), loaded@, now),
    {
        let window = match self.0 {
            None => {
                let r: Vec<String> = Vec::new();
                assert(r@.map_values(|n: String| n@) =~= Seq::<Seq<char>>::empty());
                return r;
            },
            Some(w) => w,
        };
        let limit = window.as_nanos();
        let mut idle: Vec<Loaded> = Vec::new();
        let mut i: usize = 0;
        while i < loaded.len()
            invariant
                i <= loaded.len(),
                limit == window.total(),
                idle@ == stale(loaded@.subrange(0, i as int), window.total(), now),
            decreases loaded.len() - i,
        {
            assert(loaded@.subrange(0, i + 1).drop_last() =~= loaded@.subrange(0, i as int));
            let e = &loaded[i];
            let age = now.elapsed_since(&e.last_used) as u128;
            if !e.residency.is_resident() && !e.busy && age >= limit {
                idle.push(e.clone());
            }
            i += 1;
        }
        assert(loaded@.subrange(0, loaded.len() as int) =~= loaded@);
        let order = sort_by_age(&idle);
        let mut names: Vec<String> = Vec::new();
        let mut j: usize = 0;
        while j < order.len()
            invariant
                j <= order.len(),
                names@.map_values(|n: String| n@) == ids_of(order@.take(j as int)),
            decreases order.len() - j,
        {
            let ghost before = names@.map_values(|n: String| n@);
            names.push(order[j].id.clone());
            assert(names@.map_values(|n: String| n@) =~= before.push(order@[j as int].id@));
            assert(ids_of(order@.take(j + 1)) =~= ids_of(order@.take(j as int)).push(
                order@[j as int].id@,
            ));
            j += 1;
        }
        assert(order@.take(order.len() as int) =~= order@);
        names
    }

    /// The window a configured value sets: `None` for an unset or empty
    /// value, which means no window.
    ///
    /// # Errors
    ///
    /// Returns a [`Failure`] when the value is not a whole number of seconds.
    /// A window someone set and mistyped must not silently become no window
    /// at all.
    pub fn configured_from(value: Option<&str>) -> (r: Result<Self, Failure>)
        ensures
            match value {
                None => r matches Ok(w) && w.length() is None,
                Some(v) => if v@.len() == 0 {
                    r matches Ok(w) && w.length() is None
                } else {
                    match parse_u64(trim(v@)) {
                        Some(secs) => r matches Ok(w) && w.length() == window_of_seconds(secs),
                        None => r matches Err(Failure::Unavailable(m)) && m@ == window_refusal(
                            v@,
                        ),
                    }
                },
            },
    {
        let text = match value {
            None => {
                return Ok(IdleWindow(None));
            },
            Some(t) => t,
        };
        let chars = chars_of(text);
        if chars.len() == 0 {
            return Ok(IdleWindow(None));
        }
        match read_u64(&trimmed(&chars)) {
            Some(secs) => Ok(IdleWindow::new(Span::from_secs(secs))),
            None => {
                let mut m = String::from_str("MAESTRO_IDLE_UNLOAD_SECONDS carries '");
                m.append(text);
                m.append(
                    "', which is not a whole number of seconds; unset it for no idle window, or give it a whole number",
                );
                Err(Failure::Unavailable(m))
            },
        }
    }
}

/// What is stale holds exactly the loaded entries that have gone idle.
pub proof fn lemma_stale(loaded: Seq<Loaded>, window: nat, now: Moment)
    ensures
        forall|y: Loaded| #[trigger]
            stale(loaded, window, now).contains(y) <==> (loaded.contains(y) && is_stale(
                y,
                window,
                now,
            )),
    decreases loaded.len(),
{
    if loaded.len() > 0 {
        let prefix = loaded.drop_last();
        lemma_stale(prefix, window, now);
        assert forall|y: Loaded| #[trigger]
            stale(loaded, window, now).contains(y) <==> (loaded.contains(y) && is_stale(
                y,
                window,
                now,
            )) by {
            let c = stale(prefix, window, now);
            if c.contains(y) {
                let i = choose|i: int| 0 <= i < prefix.len() && prefix[i] == y;
                assert(loaded[i] == y);
            }
            if is_stale(loaded.last(), window, now) {
                let r = c.push(loaded.last());
                if r.contains(y) {
                    let i = choose|i: int| 0 <= i < r.len() && r[i] == y;
                    if i < c.len() {
                        assert(c[i] == y);
                    } else {
                        assert(loaded[loaded.len() - 1] == y);
                    }
                }
                if c.contains(y) {
                    let i = choose|i: int| 0 <= i < c.len() && c[i] == y;
                    assert(r[i] == y);
                }
                if y == loaded.last() {
                    assert(r[c.len() as int] == y);
                }
            }
            if loaded.contains(y) && is_stale(y, window, now) {
                let i = choose|i: int| 0 <= i < loaded.len() && loaded[i] == y;
                if i < loaded.len() - 1 {
                    assert(prefix[i] == y);
                }
            }
        }
    }
}

/// A window that is off expires nothing, however long anything has sat idle.
pub proof fn law_off_window_expires_nothing(loaded: Seq<Loaded>, now: Moment)
    ensures
        expired_ids(None, loaded, now).len() == 0,
{
}

/// What a window expires is named coldest first, and every name is that of
/// an on-demand entry that is not busy and has been unused for at least the
/// window; every such entry is named.
pub proof fn law_expired_are_idle_coldest_first(window: Span, loaded: Seq<Loaded>, now: Moment)
    ensures
        exists|expired: Seq<Loaded>|
            {
                &&& ids_of(expired) == expired_ids(Some(window), loaded, now)
                &&& coldest_first(expired)
                &&& forall|y: Loaded| #[trigger]
                    expired.contains(y) <==> (loaded.contains(y) && is_stale(
                        y,
                        window.total(),
                        now,
                    ))
            },
{
    let s = stale(loaded, window.total(), now);
    lemma_stale(loaded, window.total(), now);
    lemma_by_age(s);
    assert(ids_of(by_age(s)) == expired_ids(Some(window), loaded, now));
}

/// What a window made from a span expires, whole: a span of zero makes no
/// window and expires nothing, however old anything is; any other expires
/// exactly the loaded entries that are on-demand, not being read from, and
/// unused for at least the span, coldest first -- so a resident or a busy
/// entry is never named.
pub proof fn law_idle_window(w: IdleWindow, span: Span, loaded: Seq<Loaded>, now: Moment)
    requires
        w.window() == (if span.total() == 0 {
            None
        } else {
            Some(span)
        }),
    ensures
        span.total() == 0 ==> expired_ids(w.window(), loaded, now).len() == 0,
        span.total() > 0 ==> exists|expired: Seq<Loaded>|
            {
                &&& ids_of(expired) == expired_ids(w.window(), loaded, now)
                &&& coldest_first(expired)
                &&& forall|y: Loaded| #[trigger]
                    expired.contains(y) <==> (loaded.contains(y) && y.residency == Residency::OnDemand
                        && !y.busy && now.since(y.last_used) >= span.total())
            },
{
    if span.total() > 0 {
        law_expired_are_idle_coldest_first(span, loaded, now);
    }
}

} // verus!
