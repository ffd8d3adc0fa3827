//! What every decision keeps, whatever is loaded and whatever is asked for.
//!
//! Each law is stated over [`decide`], which [`Budget::consider`] is proved
//! to compute, so each holds of every decision the router takes.
//!
//! [`Budget::consider`]: super::Budget::consider

use vstd::prelude::*;

use super::room::{shortfall, Short};
use super::{
    age_key, by_age, candidates, coldest_first, decide, fit_count, frees_itself, holds_id,
    ids_of, is_candidate, lemma_by_age, lemma_candidates, lemma_fit_count_least, short_after,
    widened, Loaded, Verdict, Wanted,
};
use crate::catalog::Residency;

verus! {

/// The entries a decision to unload names, when it is one: the first
/// candidates in coldest-first order, as many as the decision counted.
pub open spec fn chosen(
    ceiling: Option<u32>,
    loaded: Seq<Loaded>,
    wanted: Wanted,
    free: Option<u64>,
) -> Seq<Loaded> {
    let order = by_age(candidates(loaded, wanted.id@));
    order.take(fit_count(widened(ceiling), loaded, wanted, free, order, 0) as int)
}

proof fn lemma_chosen(ceiling: Option<u32>, loaded: Seq<Loaded>, wanted: Wanted, free: Option<u64>)
    requires
        decide(ceiling, loaded, wanted, free) is Unload,
    ensures
        decide(ceiling, loaded, wanted, free) == Verdict::Unload(
            ids_of(chosen(ceiling, loaded, wanted, free)),
        ),
        short_after(
            widened(ceiling),
            loaded,
            wanted,
            free,
            chosen(ceiling, loaded, wanted, free),
            chosen(ceiling, loaded, wanted, free).len() as int,
        ) is None,
        forall|m: int|
            0 <= m < chosen(ceiling, loaded, wanted, free).len() ==> #[trigger] short_after(
                widened(ceiling),
                loaded,
                wanted,
                free,
                chosen(ceiling, loaded, wanted, free),
                m,
            ) is Some,
        coldest_first(chosen(ceiling, loaded, wanted, free)),
        forall|c: Loaded| #[trigger]
            chosen(ceiling, loaded, wanted, free).contains(c) ==> loaded.contains(c)
                && is_candidate(c, wanted.id@),
        forall|c: Loaded, j: int|
            loaded.contains(c) && #[trigger] is_candidate(c, wanted.id@) && !chosen(
                ceiling,
                loaded,
                wanted,
                free,
            ).contains(c) && 0 <= j < chosen(ceiling, loaded, wanted, free).len() ==> age_key(
                #[trigger] chosen(ceiling, loaded, wanted, free)[j],
            ) <= age_key(c),
{
    let limit = widened(ceiling);
    let cands = candidates(loaded, wanted.id@);
    let order = by_age(cands);
    let k = fit_count(limit, loaded, wanted, free, order, 0);
    lemma_by_age(cands);
    lemma_candidates(loaded, wanted.id@);
    lemma_fit_count_least(limit, loaded, wanted, free, order, 0);
    let ch = order.take(k as int);
    assert(ch == chosen(ceiling, loaded, wanted, free));
    assert(ch.take(ch.len() as int) =~= order.take(k as int));
    assert forall|m: int| 0 <= m < ch.len() implies #[trigger] short_after(
        limit,
        loaded,
        wanted,
        free,
        ch,
        m,
    ) is Some by {
        assert(ch.take(m) =~= order.take(m));
        assert(short_after(limit, loaded, wanted, free, order, m) is Some);
    }
    assert forall|c: Loaded| #[trigger] ch.contains(c) implies loaded.contains(c) && is_candidate(
        c,
        wanted.id@,
    ) by {
        let i = choose|i: int| 0 <= i < ch.len() && ch[i] == c;
        assert(order[i] == c);
        assert(order.contains(c));
    }
    assert forall|c: Loaded, j: int|
        loaded.contains(c) && #[trigger] is_candidate(c, wanted.id@) && !ch.contains(c) && 0 <= j
            < ch.len() implies age_key(#[trigger] ch[j]) <= age_key(c) by {
        assert(cands.contains(c));
        assert(order.contains(c));
        let q = choose|q: int| 0 <= q < order.len() && order[q] == c;
        if q < k {
            assert(ch[q] == c);
        }
        assert(ch[j] == order[j]);
    }
}

/// An entry that is already loaded fits: serving a model that is running
/// costs nothing new, however full the budget is.
pub proof fn law_loaded_entry_fits(
    ceiling: Option<u32>,
    loaded: Seq<Loaded>,
    wanted: Wanted,
    free: Option<u64>,
)
    requires
        holds_id(loaded, wanted.id@),
    ensures
        decide(ceiling, loaded, wanted, free) is Fits,
{
}

/// Without a ceiling and without a figure from the device, anything fits and
/// nothing is unloaded.
pub proof fn law_unbounded_fits(loaded: Seq<Loaded>, wanted: Wanted)
    ensures
        decide(None, loaded, wanted, None) is Fits,
{
}

/// An entry that is not loaded and is estimated above the whole budget is
/// refused at once: nothing can be unloaded to make it fit.
pub proof fn law_larger_than_budget_refused(
    ceiling: u32,
    loaded: Seq<Loaded>,
    wanted: Wanted,
    free: Option<u64>,
)
    requires
        !holds_id(loaded, wanted.id@),
        wanted.cost_mib > ceiling,
    ensures
        decide(Some(ceiling), loaded, wanted, free) is Refuse,
{
}

/// A decision that something fits was taken with room on both sides as
/// things stand, or for an entry already loaded.
pub proof fn law_fits_means_room(
    ceiling: Option<u32>,
    loaded: Seq<Loaded>,
    wanted: Wanted,
    free: Option<u64>,
)
    requires
        decide(ceiling, loaded, wanted, free) is Fits,
    ensures
        holds_id(loaded, wanted.id@) || short_after(
            widened(ceiling),
            loaded,
            wanted,
            free,
            Seq::empty(),
            0,
        ) is None,
{
}

/// Everything a decision unloads is a loaded entry that is on-demand, idle,
/// and not the one being asked for.
pub proof fn law_unloads_only_idle_candidates(
    ceiling: Option<u32>,
    loaded: Seq<Loaded>,
    wanted: Wanted,
    free: Option<u64>,
    names: Seq<Seq<char>>,
)
    requires
        decide(ceiling, loaded, wanted, free) == Verdict::Unload(names),
    ensures
        forall|n: int|
            0 <= n < names.len() ==> exists|i: int|
                0 <= i < loaded.len() && loaded[i].id@ == #[trigger] names[n] && is_candidate(
                    loaded[i],
                    wanted.id@,
                ),
{
    lemma_chosen(ceiling, loaded, wanted, free);
    let ch = chosen(ceiling, loaded, wanted, free);
    assert(names == ids_of(ch));
    assert(names.len() == ch.len());
    assert forall|n: int| 0 <= n < names.len() implies exists|i: int|
        0 <= i < loaded.len() && loaded[i].id@ == #[trigger] names[n] && is_candidate(
            loaded[i],
            wanted.id@,
        ) by {
        assert(ch.contains(ch[n]));
        let i = choose|i: int| 0 <= i < loaded.len() && loaded[i] == ch[n];
        assert(names[n] == ch[n].id@);
        assert(is_candidate(loaded[i], wanted.id@));
    }
}

/// A resident entry is never unloaded, and neither is a busy one: with each
/// identifier loaded once, no decision names either.
pub proof fn law_residents_and_busy_stay(
    ceiling: Option<u32>,
    loaded: Seq<Loaded>,
    wanted: Wanted,
    free: Option<u64>,
    names: Seq<Seq<char>>,
    i: int,
)
    requires
        forall|a: int, b: int|
            0 <= a < b < loaded.len() ==> #[trigger] loaded[a].id@ != #[trigger] loaded[b].id@,
        0 <= i < loaded.len(),
        loaded[i].residency == Residency::Resident || loaded[i].busy,
        decide(ceiling, loaded, wanted, free) == Verdict::Unload(names),
    ensures
        !names.contains(loaded[i].id@),
{
    law_unloads_only_idle_candidates(ceiling, loaded, wanted, free, names);
    if names.contains(loaded[i].id@) {
        let n = choose|n: int| 0 <= n < names.len() && names[n] == loaded[i].id@;
        let j = choose|j: int|
            0 <= j < loaded.len() && loaded[j].id@ == #[trigger] names[n] && is_candidate(
                loaded[j],
                wanted.id@,
            );
        if j < i {
            assert(loaded[j].id@ != loaded[i].id@);
        } else if i < j {
            assert(loaded[i].id@ != loaded[j].id@);
        }
    }
}

/// The coldest go first: what is unloaded is ordered by when it last
/// answered, and every candidate left loaded answered no earlier than any
/// that was unloaded.
pub proof fn law_unloads_coldest_first(
    ceiling: Option<u32>,
    loaded: Seq<Loaded>,
    wanted: Wanted,
    free: Option<u64>,
)
    requires
        decide(ceiling, loaded, wanted, free) is Unload,
    ensures
        exists|unloaded: Seq<Loaded>|
            {
                &&& ids_of(unloaded) == decide(ceiling, loaded, wanted, free)->Unload_0
                &&& coldest_first(unloaded)
                &&& forall|c: Loaded, j: int|
                    loaded.contains(c) && #[trigger] is_candidate(c, wanted.id@) && !unloaded.contains(c)
                        && 0 <= j < unloaded.len() ==> age_key(#[trigger] unloaded[j])
                        <= age_key(c)
            },
{
    lemma_chosen(ceiling, loaded, wanted, free);
    let ch = chosen(ceiling, loaded, wanted, free);
    assert(ids_of(ch) == decide(ceiling, loaded, wanted, free)->Unload_0);
}

/// As few are unloaded as make room: once they are, neither side is short,
/// and with any fewer of them, in the same order, one side still would be.
pub proof fn law_unloads_fewest_that_fit(
    ceiling: Option<u32>,
    loaded: Seq<Loaded>,
    wanted: Wanted,
    free: Option<u64>,
)
    requires
        decide(ceiling, loaded, wanted, free) is Unload,
    ensures
        ids_of(chosen(ceiling, loaded, wanted, free)) == decide(
            ceiling,
            loaded,
            wanted,
            free,
        )->Unload_0,
        short_after(
            widened(ceiling),
            loaded,
            wanted,
            free,
            chosen(ceiling, loaded, wanted, free),
            chosen(ceiling, loaded, wanted, free).len() as int,
        ) is None,
        forall|m: int|
            0 <= m < chosen(ceiling, loaded, wanted, free).len() ==> #[trigger] short_after(
                widened(ceiling),
                loaded,
                wanted,
                free,
                chosen(ceiling, loaded, wanted, free),
                m,
            ) is Some,
{
    lemma_chosen(ceiling, loaded, wanted, free);
}

/// A decision to wait is taken only when unloading every candidate would
/// still not make room and something busy and on-demand holds room it will
/// give back; a refusal, when the entry is larger than the budget or nothing
/// holding the room will ever give it back.
pub proof fn law_blocks_only_when_room_frees_itself(
    ceiling: Option<u32>,
    loaded: Seq<Loaded>,
    wanted: Wanted,
    free: Option<u64>,
)
    ensures
        decide(ceiling, loaded, wanted, free) is Blocked ==> frees_itself(loaded, wanted.id@)
            && short_after(
            widened(ceiling),
            loaded,
            wanted,
            free,
            by_age(candidates(loaded, wanted.id@)),
            by_age(candidates(loaded, wanted.id@)).len() as int,
        ) is Some,
        decide(ceiling, loaded, wanted, free) is Refuse ==> (widened(ceiling) is Some
            && wanted.cost_mib > widened(ceiling)->0) || !frees_itself(loaded, wanted.id@),
{
    let limit = widened(ceiling);
    let order = by_age(candidates(loaded, wanted.id@));
    lemma_fit_count_least(limit, loaded, wanted, free, order, 0);
}

/// What a decision to unload is, whole: it names at least one model; every
/// one it names is loaded, on-demand, not being read from and not the one
/// wanted; they are named coldest first, and no candidate left loaded is
/// colder than any of them; once they are gone, neither the budget nor the
/// device is short for the wanted model; and with the last of them left in
/// place, one side still would be.
pub proof fn law_unload_decision(
    ceiling: Option<u32>,
    loaded: Seq<Loaded>,
    wanted: Wanted,
    free: Option<u64>,
)
    requires
        decide(ceiling, loaded, wanted, free) is Unload,
    ensures
        exists|unloaded: Seq<Loaded>|
            {
                &&& ids_of(unloaded) == decide(ceiling, loaded, wanted, free)->Unload_0
                &&& unloaded.len() > 0
                &&& forall|k: int|
                    0 <= k < unloaded.len() ==> loaded.contains(#[trigger] unloaded[k]) && unloaded[k].residency
                        == Residency::OnDemand && !unloaded[k].busy && unloaded[k].id@ != wanted.id@
                &&& coldest_first(unloaded)
                &&& forall|c: Loaded, j: int|
                    loaded.contains(c) && #[trigger] is_candidate(c, wanted.id@) && !unloaded.contains(c)
                        && 0 <= j < unloaded.len() ==> age_key(#[trigger] unloaded[j]) <= age_key(c)
                &&& shortfall(
                    widened(ceiling),
                    super::room::cost_sum(loaded),
                    free,
                    super::room::cost_sum(unloaded),
                    super::room::device_sum(unloaded),
                    wanted.cost_mib as nat,
                    wanted.device_mib as nat,
                ) is None
                &&& shortfall(
                    widened(ceiling),
                    super::room::cost_sum(loaded),
                    free,
                    super::room::cost_sum(unloaded.drop_last()),
                    super::room::device_sum(unloaded.drop_last()),
                    wanted.cost_mib as nat,
                    wanted.device_mib as nat,
                ) is Some
            },
{
    lemma_chosen(ceiling, loaded, wanted, free);
    let ch = chosen(ceiling, loaded, wanted, free);
    let limit = widened(ceiling);
    // Nothing unloaded leaves the wanted model short, or it would fit.
    assert(Seq::<Loaded>::empty().take(0) =~= ch.take(0));
    assert(short_after(limit, loaded, wanted, free, Seq::empty(), 0) is Some);
    assert(ch.len() > 0) by {
        if ch.len() == 0 {
            assert(short_after(limit, loaded, wanted, free, ch, 0) is None);
        }
    }
    assert(ch.take(ch.len() as int) =~= ch);
    assert(ch.take(ch.len() - 1) =~= ch.drop_last());
    assert(short_after(limit, loaded, wanted, free, ch, ch.len() - 1) is Some);
    assert forall|k: int| 0 <= k < ch.len() implies loaded.contains(#[trigger] ch[k]) && ch[k].residency
        == Residency::OnDemand && !ch[k].busy && ch[k].id@ != wanted.id@ by {
        assert(ch.contains(ch[k]));
    }
}

} // verus!
