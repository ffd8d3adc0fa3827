//! Deciding what may be loaded, and what must be unloaded first.
//!
//! This module touches no process and no socket. It takes a budget, what is
//! loaded now, what is wanted, and what the device has free, and returns a
//! decision; acting on that decision belongs to the caller. The policy is the
//! part of eviction that is hard to get right, and keeping it a pure function
//! means it is stated here exactly, in [`decide`], and proved of the code.
//!
//! Two rules shape every decision here.
//!
//! A **candidate** is a loaded model the router may unload: on-demand, and
//! with nothing reading from it. A resident model is never a candidate, which
//! is what residency means. A busy model is never a candidate either, because
//! unloading one kills the process answering a request that is still being
//! read.
//!
//! **The coldest candidate goes first.** When more than one could be unloaded,
//! the one that answered longest ago is chosen, because it is the one least
//! likely to be asked for again in the next moment.
//!
//! Two questions are asked of every start, and both have to say yes. The
//! **ledger** is the budget: a ceiling on what the loaded models cost. The
//! **device** is what the machine reports free right now; a model that puts
//! its weights on the device has to fit in that room too, whatever the ledger
//! says. Where the machine cannot be asked, the device question is not asked.

pub mod budget;
pub mod laws;
pub mod room;
pub mod subject;

use vstd::prelude::*;

pub use budget::Budget;
pub use room::{Freed, Room, Short};
pub use subject::{Loaded, Wanted};

use crate::catalog::Residency;
use crate::text::{chars_of, same};
use room::{cost_sum, device_sum, refusal_text, shortfall, sum_bound};

verus! {

/// What admission decided.
#[derive(Debug, Clone, PartialEq, Eq)]
pub enum Decision {
    /// There is room. Start it.
    Fits,
    /// There is room once these are unloaded, coldest first.
    Unload(Vec<String>),
    /// There is not yet, and what holds the room is on-demand and busy, so
    /// the room frees itself and waiting is worth doing.
    Blocked(String),
    /// There is not, and this says what is holding the memory. Permanent as
    /// far as this request is concerned.
    Refuse(String),
}

/// A decision as its texts: what contracts speak of.
pub enum Verdict {
    Fits,
    Unload(Seq<Seq<char>>),
    Blocked(Seq<char>),
    Refuse(Seq<char>),
}

impl View for Decision {
    type V = Verdict;

    open spec fn view(&self) -> Verdict {
        match self {
            Decision::Fits => Verdict::Fits,
            Decision::Unload(names) => Verdict::Unload(names@.map_values(|n: String| n@)),
            Decision::Blocked(m) => Verdict::Blocked(m@),
            Decision::Refuse(m) => Verdict::Refuse(m@),
        }
    }
}

/// Whether some loaded entry carries this identifier.
pub open spec fn holds_id(loaded: Seq<Loaded>, id: Seq<char>) -> bool {
    exists|i: int| 0 <= i < loaded.len() && loaded[i].id@ == id
}

/// Whether a loaded entry may be unloaded to make room for `id`: on-demand,
/// idle, and not the entry being asked for.
pub open spec fn is_candidate(e: Loaded, id: Seq<char>) -> bool {
    e.residency == Residency::OnDemand && !e.busy && e.id@ != id
}

/// The candidates among the loaded entries, in the order they are held.
pub open spec fn candidates(loaded: Seq<Loaded>, id: Seq<char>) -> Seq<Loaded>
    decreases loaded.len(),
{
    if loaded.len() == 0 {
        Seq::empty()
    } else if is_candidate(loaded.last(), id) {
        candidates(loaded.drop_last(), id).push(loaded.last())
    } else {
        candidates(loaded.drop_last(), id)
    }
}

/// When an entry last answered.
pub open spec fn age_key(e: Loaded) -> u64 {
    e.last_used.nanos
}

/// `x` put into `s` before the first entry that answered later than it did.
pub open spec fn insert_by_age(s: Seq<Loaded>, x: Loaded) -> Seq<Loaded>
    decreases s.len(),
{
    if s.len() == 0 {
        seq![x]
    } else if age_key(s[0]) > age_key(x) {
        seq![x] + s
    } else {
        seq![s[0]] + insert_by_age(s.drop_first(), x)
    }
}

/// Entries ordered coldest first; entries that answered at the same moment
/// keep the order they were held in.
pub open spec fn by_age(s: Seq<Loaded>) -> Seq<Loaded>
    decreases s.len(),
{
    if s.len() == 0 {
        Seq::empty()
    } else {
        insert_by_age(by_age(s.drop_last()), s.last())
    }
}

/// Whether entries are ordered coldest first.
pub open spec fn coldest_first(s: Seq<Loaded>) -> bool {
    forall|i: int, j: int| 0 <= i <= j < s.len() ==> age_key(s[i]) <= age_key(s[j])
}

/// The identifiers of a list of entries, in order.
pub open spec fn ids_of(s: Seq<Loaded>) -> Seq<Seq<char>> {
    s.map_values(|e: Loaded| e.id@)
}

/// The ceiling a budget's limit puts on the ledger, widened.
pub open spec fn widened(limit: Option<u32>) -> Option<u64> {
    match limit {
        Some(l) => Some(l as u64),
        None => None,
    }
}

/// Which side is still short once the first `k` of `order` are unloaded.
pub open spec fn short_after(
    limit: Option<u64>,
    loaded: Seq<Loaded>,
    wanted: Wanted,
    free: Option<u64>,
    order: Seq<Loaded>,
    k: int,
) -> Option<Short> {
    shortfall(
        limit,
        cost_sum(loaded),
        free,
        cost_sum(order.take(k)),
        device_sum(order.take(k)),
        wanted.cost_mib as nat,
        wanted.device_mib as nat,
    )
}

/// How many of `order`, taken from `k` on, are unloaded: the fewest that
/// leave no side short, or all of them when none do.
pub open spec fn fit_count(
    limit: Option<u64>,
    loaded: Seq<Loaded>,
    wanted: Wanted,
    free: Option<u64>,
    order: Seq<Loaded>,
    k: nat,
) -> nat
    decreases order.len() - k,
{
    if k >= order.len() || short_after(limit, loaded, wanted, free, order, k as int) is None {
        k
    } else {
        fit_count(limit, loaded, wanted, free, order, k + 1)
    }
}

/// Whether something holding room is on-demand and busy, and so would be a
/// candidate the moment nothing read from it.
pub open spec fn frees_itself(loaded: Seq<Loaded>, id: Seq<char>) -> bool {
    exists|i: int|
        0 <= i < loaded.len() && loaded[i].residency == Residency::OnDemand && loaded[i].busy
            && loaded[i].id@ != id
}

/// The refusal for an entry larger than the whole budget.
pub open spec fn too_large_text(id: Seq<char>, cost: nat, limit: nat) -> Seq<char> {
    "'"@ + id + "' is estimated at "@ + crate::text::decimal(cost)
        + " MiB, which is more than the whole budget of "@ + crate::text::decimal(limit)
        + " MiB; nothing can be unloaded to make it fit"@
}

/// What admission decides, given the budget's ceiling, what is loaded, what
/// is wanted, and what the device has free.
///
/// An entry already loaded fits. One larger than the whole budget is refused
/// at once. Otherwise the candidates are taken coldest first, as few as leave
/// both sides room; when even all of them do not, the decision blocks if
/// something busy and on-demand would free room by finishing, and refuses if
/// nothing would.
pub open spec fn decide(
    ceiling: Option<u32>,
    loaded: Seq<Loaded>,
    wanted: Wanted,
    free: Option<u64>,
) -> Verdict {
    let limit = widened(ceiling);
    if holds_id(loaded, wanted.id@) {
        Verdict::Fits
    } else if limit is Some && wanted.cost_mib > limit->0 {
        Verdict::Refuse(too_large_text(wanted.id@, wanted.cost_mib as nat, limit->0 as nat))
    } else if short_after(limit, loaded, wanted, free, Seq::empty(), 0) is None {
        Verdict::Fits
    } else {
        let order = by_age(candidates(loaded, wanted.id@));
        let k = fit_count(limit, loaded, wanted, free, order, 0);
        match short_after(limit, loaded, wanted, free, order, k as int) {
            None => Verdict::Unload(ids_of(order.take(k as int))),
            Some(short) => {
                let message = refusal_text(
                    short,
                    limit,
                    free,
                    wanted,
                    device_sum(order.take(k as int)),
                    loaded,
                );
                if frees_itself(loaded, wanted.id@) {
                    Verdict::Blocked(message)
                } else {
                    Verdict::Refuse(message)
                }
            },
        }
    }
}

// ---------------------------------------------------------------------------
// What the ordering and the count are.
// ---------------------------------------------------------------------------

proof fn lemma_insert_at(s: Seq<Loaded>, x: Loaded, p: int)
    requires
        0 <= p <= s.len(),
        forall|j: int| 0 <= j < p ==> age_key(s[j]) <= age_key(x),
        p == s.len() || age_key(s[p]) > age_key(x),
    ensures
        insert_by_age(s, x) == s.insert(p, x),
    decreases s.len(),
{
    if p == 0 {
        if s.len() == 0 {
            assert(s.insert(0, x) =~= seq![x]);
        } else {
            assert(s.insert(0, x) =~= seq![x] + s);
        }
    } else {
        let rest = s.drop_first();
        assert forall|j: int| 0 <= j < p - 1 implies age_key(rest[j]) <= age_key(x) by {
            assert(rest[j] == s[j + 1]);
        }
        lemma_insert_at(rest, x, p - 1);
        assert(seq![s[0]] + rest.insert(p - 1, x) =~= s.insert(p, x));
    }
}

/// What an insertion holds: what was there, and the entry put in.
pub proof fn lemma_insert_contents(s: Seq<Loaded>, x: Loaded)
    ensures
        insert_by_age(s, x).len() == s.len() + 1,
        forall|y: Loaded| #[trigger] insert_by_age(s, x).contains(y) <==> (s.contains(y) || y == x),
    decreases s.len(),
{
    if s.len() == 0 {
        assert forall|y: Loaded| #[trigger] insert_by_age(s, x).contains(y) <==> (s.contains(y)
            || y == x) by {
            if y == x {
                assert(seq![x][0] == y);
            }
        }
    } else if age_key(s[0]) > age_key(x) {
        assert forall|y: Loaded| #[trigger] insert_by_age(s, x).contains(y) <==> (s.contains(y)
            || y == x) by {
            let r = seq![x] + s;
            if r.contains(y) {
                let i = choose|i: int| 0 <= i < r.len() && r[i] == y;
                if i > 0 {
                    assert(s[i - 1] == y);
                }
            }
            if s.contains(y) {
                let i = choose|i: int| 0 <= i < s.len() && s[i] == y;
                assert(r[i + 1] == y);
            }
            if y == x {
                assert(r[0] == y);
            }
        }
    } else {
        let rest = s.drop_first();
        lemma_insert_contents(rest, x);
        assert forall|y: Loaded| #[trigger] insert_by_age(s, x).contains(y) <==> (s.contains(y)
            || y == x) by {
            let inner = insert_by_age(rest, x);
            let r = seq![s[0]] + inner;
            if r.contains(y) {
                let i = choose|i: int| 0 <= i < r.len() && r[i] == y;
                if i > 0 {
                    assert(inner[i - 1] == y);
                    assert(inner.contains(y));
                    if rest.contains(y) {
                        let j = choose|j: int| 0 <= j < rest.len() && rest[j] == y;
                        assert(s[j + 1] == y);
                    }
                } else {
                    assert(s[0] == y);
                }
            }
            if s.contains(y) {
                let i = choose|i: int| 0 <= i < s.len() && s[i] == y;
                if i == 0 {
                    assert(r[0] == y);
                } else {
                    assert(rest[i - 1] == y);
                    assert(inner.contains(y));
                    let j = choose|j: int| 0 <= j < inner.len() && inner[j] == y;
                    assert(r[j + 1] == y);
                }
            }
            if y == x {
                assert(inner.contains(y));
                let j = choose|j: int| 0 <= j < inner.len() && inner[j] == y;
                assert(r[j + 1] == y);
            }
        }
    }
}

/// An insertion into a list ordered coldest first keeps it so.
pub proof fn lemma_insert_ordered(s: Seq<Loaded>, x: Loaded)
    requires
        coldest_first(s),
    ensures
        coldest_first(insert_by_age(s, x)),
    decreases s.len(),
{
    if s.len() == 0 {
    } else if age_key(s[0]) > age_key(x) {
        let r = seq![x] + s;
        assert forall|i: int, j: int| 0 <= i <= j < r.len() implies age_key(r[i]) <= age_key(
            r[j],
        ) by {
            if i > 0 {
                assert(r[i] == s[i - 1] && r[j] == s[j - 1]);
            } else if j > 0 {
                assert(r[j] == s[j - 1]);
                assert(age_key(s[0]) <= age_key(s[j - 1]));
            }
        }
    } else {
        let rest = s.drop_first();
        assert(coldest_first(rest)) by {
            assert forall|i: int, j: int| 0 <= i <= j < rest.len() implies age_key(rest[i])
                <= age_key(rest[j]) by {
                assert(rest[i] == s[i + 1] && rest[j] == s[j + 1]);
            }
        }
        lemma_insert_ordered(rest, x);
        lemma_insert_contents(rest, x);
        let inner = insert_by_age(rest, x);
        let r = seq![s[0]] + inner;
        assert forall|i: int, j: int| 0 <= i <= j < r.len() implies age_key(r[i]) <= age_key(
            r[j],
        ) by {
            if i > 0 {
                assert(r[i] == inner[i - 1] && r[j] == inner[j - 1]);
            } else if j > 0 {
                let y = inner[j - 1];
                assert(r[j] == y);
                assert(inner.contains(y));
                if y != x {
                    assert(rest.contains(y));
                    let m = choose|m: int| 0 <= m < rest.len() && rest[m] == y;
                    assert(s[m + 1] == y);
                }
            }
        }
    }
}

/// The coldest-first order holds exactly what it was given, ordered.
pub proof fn lemma_by_age(s: Seq<Loaded>)
    ensures
        by_age(s).len() == s.len(),
        coldest_first(by_age(s)),
        forall|y: Loaded| #[trigger] by_age(s).contains(y) <==> s.contains(y),
    decreases s.len(),
{
    if s.len() > 0 {
        let prefix = s.drop_last();
        lemma_by_age(prefix);
        lemma_insert_ordered(by_age(prefix), s.last());
        lemma_insert_contents(by_age(prefix), s.last());
        assert forall|y: Loaded| #[trigger] by_age(s).contains(y) <==> s.contains(y) by {
            if prefix.contains(y) {
                let i = choose|i: int| 0 <= i < prefix.len() && prefix[i] == y;
                assert(s[i] == y);
            }
            if s.contains(y) {
                let i = choose|i: int| 0 <= i < s.len() && s[i] == y;
                if i < s.len() - 1 {
                    assert(prefix[i] == y);
                }
            }
        }
    }
}

/// Every candidate is a loaded entry that may be unloaded, and every such
/// entry is a candidate.
pub proof fn lemma_candidates(loaded: Seq<Loaded>, id: Seq<char>)
    ensures
        forall|y: Loaded| #[trigger]
            candidates(loaded, id).contains(y) <==> (loaded.contains(y) && is_candidate(y, id)),
        candidates(loaded, id).len() <= loaded.len(),
    decreases loaded.len(),
{
    if loaded.len() > 0 {
        let prefix = loaded.drop_last();
        lemma_candidates(prefix, id);
        assert forall|y: Loaded| #[trigger]
            candidates(loaded, id).contains(y) <==> (loaded.contains(y) && is_candidate(
                y,
                id,
            )) by {
            let c = candidates(prefix, id);
            if c.contains(y) {
                assert(prefix.contains(y));
                let i = choose|i: int| 0 <= i < prefix.len() && prefix[i] == y;
                assert(loaded[i] == y);
            }
            if is_candidate(loaded.last(), id) {
                let r = c.push(loaded.last());
                if r.contains(y) {
                    let i = choose|i: int| 0 <= i < r.len() && r[i] == y;
                    if i < c.len() {
                        assert(c[i] == y);
                    } else {
                        assert(loaded[loaded.len() - 1] == y);
                    }
                }
                if c.contains(y) {
                    let i = choose|i: int| 0 <= i < c.len() && c[i] == y;
                    assert(r[i] == y);
                }
                if y == loaded.last() {
                    assert(r[c.len() as int] == y);
                }
            }
            if loaded.contains(y) && is_candidate(y, id) {
                let i = choose|i: int| 0 <= i < loaded.len() && loaded[i] == y;
                if i < loaded.len() - 1 {
                    assert(prefix[i] == y);
                }
            }
        }
    }
}

proof fn lemma_fit_count(
    limit: Option<u64>,
    loaded: Seq<Loaded>,
    wanted: Wanted,
    free: Option<u64>,
    order: Seq<Loaded>,
    j: nat,
    k: nat,
)
    requires
        j <= k <= order.len(),
        forall|m: int| j <= m < k ==> short_after(limit, loaded, wanted, free, order, m) is Some,
        k == order.len() || short_after(limit, loaded, wanted, free, order, k as int) is None,
    ensures
        fit_count(limit, loaded, wanted, free, order, j) == k,
    decreases k - j,
{
    if j < k {
        lemma_fit_count(limit, loaded, wanted, free, order, j + 1, k);
    }
}

/// The count is the fewest that leave no side short: every shorter prefix
/// leaves one short, and the count is at most the whole order.
pub proof fn lemma_fit_count_least(
    limit: Option<u64>,
    loaded: Seq<Loaded>,
    wanted: Wanted,
    free: Option<u64>,
    order: Seq<Loaded>,
    j: nat,
)
    requires
        j <= order.len(),
    ensures
        j <= fit_count(limit, loaded, wanted, free, order, j) <= order.len(),
        fit_count(limit, loaded, wanted, free, order, j) == order.len() || short_after(
            limit,
            loaded,
            wanted,
            free,
            order,
            fit_count(limit, loaded, wanted, free, order, j) as int,
        ) is None,
        forall|m: int|
            j <= m < fit_count(limit, loaded, wanted, free, order, j) ==> short_after(
                limit,
                loaded,
                wanted,
                free,
                order,
                m,
            ) is Some,
    decreases order.len() - j,
{
    if j < order.len() && short_after(limit, loaded, wanted, free, order, j as int) is Some {
        lemma_fit_count_least(limit, loaded, wanted, free, order, j + 1);
    }
}

// ---------------------------------------------------------------------------
// The decision.
// ---------------------------------------------------------------------------

/// What a list of loaded entries costs together.
fn total_cost(s: &[Loaded]) -> (r: u128)
    ensures
        r == cost_sum(s@),
        r <= sum_bound(s@.len()),
{
    let mut total: u128 = 0;
    let mut i: usize = 0;
    while i < s.len()
        invariant
            i <= s.len(),
            total == cost_sum(s@.subrange(0, i as int)),
            total <= sum_bound(i as nat),
        decreases s.len() - i,
    {
        assert(s@.subrange(0, i + 1).drop_last() =~= s@.subrange(0, i as int));
        proof {
            assert(sum_bound((i + 1) as nat) <= usize::MAX * 0xffff_ffff_ffff_ffffnat)
                by (nonlinear_arith)
                requires
                    i < usize::MAX,
            ;
        }
        total = total + s[i].cost_mib as u128;
        i += 1;
    }
    assert(s@.subrange(0, s.len() as int) =~= s@);
    total
}

/// Whether some loaded entry carries this identifier.
fn find_id(loaded: &[Loaded], id: &String) -> (b: bool)
    ensures
        b == holds_id(loaded@, id@),
{
    let wanted = chars_of(id.as_str());
    let mut i: usize = 0;
    while i < loaded.len()
        invariant
            i <= loaded.len(),
            wanted@ == id@,
            forall|j: int| 0 <= j < i ==> loaded@[j].id@ != id@,
        decreases loaded.len() - i,
    {
        if same(&chars_of(loaded[i].id.as_str()), &wanted) {
            return true;
        }
        i += 1;
    }
    false
}

/// Whether an entry is a candidate for making room for `id`.
fn candidate(e: &Loaded, id: &Vec<char>) -> (b: bool)
    ensures
        b == is_candidate(*e, id@),
{
    !e.residency.is_resident() && !e.busy && !same(&chars_of(e.id.as_str()), id)
}

/// Whether something on-demand and busy holds room beside the wanted entry.
fn busy_on_demand(loaded: &[Loaded], id: &Vec<char>) -> (b: bool)
    ensures
        b == frees_itself(loaded@, id@),
{
    let mut i: usize = 0;
    while i < loaded.len()
        invariant
            i <= loaded.len(),
            forall|j: int|
                0 <= j < i ==> !(loaded@[j].residency == Residency::OnDemand && loaded@[j].busy
                    && loaded@[j].id@ != id@),
        decreases loaded.len() - i,
    {
        let e = &loaded[i];
        if !e.residency.is_resident() && e.busy && !same(&chars_of(e.id.as_str()), id) {
            return true;
        }
        i += 1;
    }
    false
}

/// Entries ordered coldest first, ties kept in the order they came in.
pub fn sort_by_age(s: &Vec<Loaded>) -> (r: Vec<Loaded>)
    ensures
        r@ == by_age(s@),
{
    let mut order: Vec<Loaded> = Vec::new();
    let mut i: usize = 0;
    while i < s.len()
        invariant
            i <= s.len(),
            order@ == by_age(s@.subrange(0, i as int)),
        decreases s.len() - i,
    {
        let ghost prefix = s@.subrange(0, i + 1);
        assert(prefix.drop_last() =~= s@.subrange(0, i as int));
        let e = &s[i];
        let key = e.last_used.nanos;
        let mut p: usize = 0;
        while p < order.len() && order[p].last_used.nanos <= key
            invariant
                p <= order.len(),
                forall|j: int| 0 <= j < p ==> age_key(order@[j]) <= key,
            decreases order.len() - p,
        {
            p += 1;
        }
        let ghost before = order@;
        proof {
            lemma_insert_at(before, *e, p as int);
        }
        order.insert(p, e.clone());
        i += 1;
    }
    assert(s@.subrange(0, s.len() as int) =~= s@);
    order
}

/// The candidates, in the order they are held.
fn candidates_of(loaded: &[Loaded], id: &Vec<char>) -> (r: Vec<Loaded>)
    ensures
        r@ == candidates(loaded@, id@),
        r@.len() <= loaded@.len(),
{
    let mut r: Vec<Loaded> = Vec::new();
    let mut i: usize = 0;
    while i < loaded.len()
        invariant
            i <= loaded.len(),
            r@ == candidates(loaded@.subrange(0, i as int), id@),
            r@.len() <= i,
        decreases loaded.len() - i,
    {
        assert(loaded@.subrange(0, i + 1).drop_last() =~= loaded@.subrange(0, i as int));
        if candidate(&loaded[i], id) {
            r.push(loaded[i].clone());
        }
        i += 1;
    }
    assert(loaded@.subrange(0, loaded.len() as int) =~= loaded@);
    r
}

/// The candidates, coldest first.
fn ordered_candidates(loaded: &[Loaded], id: &Vec<char>) -> (r: Vec<Loaded>)
    ensures
        r@ == by_age(candidates(loaded@, id@)),
        r@.len() <= loaded@.len(),
{
    let cands = candidates_of(loaded, id);
    proof {
        lemma_by_age(cands@);
    }
    sort_by_age(&cands)
}

impl Budget {
    /// Whether the wanted entry may be loaded, and what must go first.
    ///
    /// Returns [`Decision::Fits`] when there is room already, including when
    /// the entry is loaded, [`Decision::Unload`] naming what to unload coldest
    /// first, [`Decision::Blocked`] when the room is held by something that
    /// will release it, or [`Decision::Refuse`] carrying what is holding the
    /// memory.
    ///
    /// `device_free_mib` is what the machine reports free on the device right
    /// now, or `None` when it cannot be asked. It counts everything on the
    /// machine, not only what this router loaded.
    pub fn consider(&self, loaded: &[Loaded], wanted: &Wanted, device_free_mib: Option<u64>) -> (r:
        Decision)
        ensures
            r@ == decide(self.ceiling(), loaded@, *wanted, device_free_mib),
    {
        if find_id(loaded, &wanted.id) {
            return Decision::Fits;
        }
        let limit: Option<u64> = match self.limit_mib() {
            Some(l) => Some(l as u64),
            None => None,
        };
        if let Some(l) = limit {
            if wanted.cost_mib > l {
                let mut s = String::from_str("'");
                s.append(wanted.id.as_str());
                s.append("' is estimated at ");
                s.append(crate::text::decimal_string(wanted.cost_mib as u128).as_str());
                s.append(" MiB, which is more than the whole budget of ");
                s.append(crate::text::decimal_string(l as u128).as_str());
                s.append(" MiB; nothing can be unloaded to make it fit");
                return Decision::Refuse(s);
            }
        }
        let room = Room { limit, held: total_cost(loaded), device_free: device_free_mib };
        let mut freed = Freed { cost: 0, device: 0 };
        proof {
            assert(Seq::<Loaded>::empty().take(0) =~= Seq::<Loaded>::empty());
        }
        if room.short(wanted, &freed).is_none() {
            return Decision::Fits;
        }
        let id = chars_of(wanted.id.as_str());
        let order = ordered_candidates(loaded, &id);
        let ghost spec_order = by_age(candidates(loaded@, wanted.id@));
        let mut unload: Vec<String> = Vec::new();
        let mut i: usize = 0;
        assert(order@.take(0) =~= Seq::<Loaded>::empty());
        while i < order.len() && room.short(wanted, &freed).is_some()
            invariant
                i <= order.len(),
                order@ == spec_order,
                order@.len() <= loaded@.len(),
                room.limit == limit,
                room.held == cost_sum(loaded@),
                room.device_free == device_free_mib,
                limit == widened(self.ceiling()),
                freed.cost == cost_sum(order@.take(i as int)),
                freed.device == device_sum(order@.take(i as int)),
                freed.cost <= sum_bound(i as nat),
                freed.device <= sum_bound(i as nat),
                unload@.map_values(|n: String| n@) == ids_of(order@.take(i as int)),
                forall|m: int|
                    0 <= m < i ==> short_after(limit, loaded@, *wanted, device_free_mib, order@, m)
                        is Some,
            decreases order.len() - i,
        {
            assert(short_after(limit, loaded@, *wanted, device_free_mib, order@, i as int)
                is Some);
            proof {
                assert(sum_bound((i + 1) as nat) <= usize::MAX * 0xffff_ffff_ffff_ffffnat)
                    by (nonlinear_arith)
                    requires
                        i < usize::MAX,
                ;
            }
            let next = &order[i];
            assert(order@.take(i + 1).drop_last() =~= order@.take(i as int));
            freed.cost = freed.cost + next.cost_mib as u128;
            freed.device = freed.device + next.device_mib as u128;
            let ghost before = unload@.map_values(|n: String| n@);
            unload.push(next.id.clone());
            assert(unload@.map_values(|n: String| n@) =~= before.push(order@[i as int].id@));
            assert(ids_of(order@.take(i + 1)) =~= ids_of(order@.take(i as int)).push(
                order@[i as int].id@,
            ));
            i += 1;
        }
        proof {
            lemma_fit_count(limit, loaded@, *wanted, device_free_mib, order@, 0, i as nat);
        }
        match room.short(wanted, &freed) {
            None => Decision::Unload(unload),
            Some(short) => {
                proof {
                    lemma_by_age(candidates(loaded@, wanted.id@));
                    lemma_candidates(loaded@, wanted.id@);
                    assert(freed.device <= sum_bound(loaded@.len())) by (nonlinear_arith)
                        requires
                            freed.device <= sum_bound(i as nat),
                            i <= loaded@.len(),
                    ;
                }
                let message = room.refusal(short, wanted, &freed, loaded);
                if busy_on_demand(loaded, &id) {
                    Decision::Blocked(message)
                } else {
                    Decision::Refuse(message)
                }
            },
        }
    }
}

} // verus!
