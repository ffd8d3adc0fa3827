//! Server settings an entry passes through without interpreting.
//!
//! Kept in key order, each key once, so two readings of one catalog produce
//! the same command line and an entry's own setting replaces the default of
//! the same name rather than standing beside it.

use vstd::prelude::*;

use crate::text::{chars_of, same};

verus! {

/// Whether `a` comes before `b` when texts are ordered character by
/// character, a text before any longer text it begins.
pub open spec fn text_before(a: Seq<char>, b: Seq<char>) -> bool
    decreases a.len(),
{
    if a.len() == 0 {
        b.len() > 0
    } else if b.len() == 0 {
        false
    } else if a[0] != b[0] {
        a[0] < b[0]
    } else {
        text_before(a.drop_first(), b.drop_first())
    }
}

/// Whether `a` comes before `b`.
pub fn comes_before(a: &Vec<char>, b: &Vec<char>) -> (r: bool)
    ensures
        r == text_before(a@, b@),
{
    let mut i: usize = 0;
    assert(a@.subrange(0, a.len() as int) =~= a@);
    assert(b@.subrange(0, b.len() as int) =~= b@);
    while i < a.len() && i < b.len() && a[i] == b[i]
        invariant
            i <= a.len(),
            i <= b.len(),
            text_before(a@, b@) == text_before(
                a@.subrange(i as int, a.len() as int),
                b@.subrange(i as int, b.len() as int),
            ),
        decreases a.len() - i,
    {
        assert(a@.subrange(i as int, a.len() as int).drop_first() =~= a@.subrange(
            i + 1,
            a.len() as int,
        ));
        assert(b@.subrange(i as int, b.len() as int).drop_first() =~= b@.subrange(
            i + 1,
            b.len() as int,
        ));
        i += 1;
    }
    assert(a@.subrange(0, a.len() as int) =~= a@);
    assert(b@.subrange(0, b.len() as int) =~= b@);
    let ghost ra = a@.subrange(i as int, a.len() as int);
    let ghost rb = b@.subrange(i as int, b.len() as int);
    if i == a.len() {
        i < b.len()
    } else if i == b.len() {
        false
    } else {
        assert(ra[0] == a@[i as int] && rb[0] == b@[i as int]);
        a[i] < b[i]
    }
}

/// A total order on texts: it never places a text before itself.
pub proof fn lemma_before_irreflexive(a: Seq<char>)
    ensures
        !text_before(a, a),
    decreases a.len(),
{
    if a.len() > 0 {
        lemma_before_irreflexive(a.drop_first());
    }
}

/// The order is transitive.
pub proof fn lemma_before_transitive(a: Seq<char>, b: Seq<char>, c: Seq<char>)
    requires
        text_before(a, b),
        text_before(b, c),
    ensures
        text_before(a, c),
    decreases a.len(),
{
    if a.len() > 0 && b.len() > 0 && c.len() > 0 && a[0] == b[0] && b[0] == c[0] {
        lemma_before_transitive(a.drop_first(), b.drop_first(), c.drop_first());
    }
}

/// Two different texts are ordered one way or the other.
pub proof fn lemma_before_total(a: Seq<char>, b: Seq<char>)
    requires
        a != b,
    ensures
        text_before(a, b) || text_before(b, a),
    decreases a.len(),
{
    if a.len() > 0 && b.len() > 0 && a[0] == b[0] {
        if a.drop_first() == b.drop_first() {
            assert(a =~= seq![a[0]] + a.drop_first());
            assert(b =~= seq![b[0]] + b.drop_first());
        }
        lemma_before_total(a.drop_first(), b.drop_first());
    } else if a.len() > 0 && b.len() > 0 {
    } else if a.len() == 0 && b.len() == 0 {
        assert(a =~= b);
    }
}

/// Server settings, by name, in name order.
#[derive(Debug, PartialEq, Eq)]
pub struct Flags {
    pairs: Vec<(String, String)>,
}

/// The names and values a list of settings carries.
pub open spec fn pairs_view(pairs: Seq<(String, String)>) -> Seq<(Seq<char>, Seq<char>)> {
    pairs.map_values(|p: (String, String)| (p.0@, p.1@))
}

/// Whether a list of settings is in strictly increasing name order, which
/// is also what makes each name appear once.
pub open spec fn ordered(pairs: Seq<(Seq<char>, Seq<char>)>) -> bool {
    forall|i: int, j: int| 0 <= i < j < pairs.len() ==> text_before(pairs[i].0, pairs[j].0)
}

/// The value a list of settings gives a name, if it gives one.
pub open spec fn lookup(pairs: Seq<(Seq<char>, Seq<char>)>, key: Seq<char>) -> Option<Seq<char>>
    decreases pairs.len(),
{
    if pairs.len() == 0 {
        None
    } else if pairs.last().0 == key {
        Some(pairs.last().1)
    } else {
        lookup(pairs.drop_last(), key)
    }
}

impl View for Flags {
    type V = Seq<(Seq<char>, Seq<char>)>;

    closed spec fn view(&self) -> Self::V {
        pairs_view(self.pairs@)
    }
}

impl Clone for Flags {
    fn clone(&self) -> (r: Self)
        ensures
            r@ == self@,
            r.well_formed() == self.well_formed(),
    {
        let mut pairs: Vec<(String, String)> = Vec::new();
        let mut i: usize = 0;
        while i < self.pairs.len()
            invariant
                i <= self.pairs.len(),
                pairs@ == self.pairs@.subrange(0, i as int),
            decreases self.pairs.len() - i,
        {
            let key = self.pairs[i].0.clone();
            let value = self.pairs[i].1.clone();
            pairs.push((key, value));
            i += 1;
            assert(pairs@ =~= self.pairs@.subrange(0, i as int));
        }
        assert(self.pairs@.subrange(0, self.pairs.len() as int) =~= self.pairs@);
        Flags { pairs }
    }
}

impl Flags {
    /// Settings are kept in name order, each name once.
    pub closed spec fn well_formed(&self) -> bool {
        ordered(self@)
    }

    /// The value set for a name, if one is.
    pub open spec fn value_of(&self, key: Seq<char>) -> Option<Seq<char>> {
        lookup(self@, key)
    }

    /// No settings at all.
    pub fn new() -> (f: Self)
        ensures
            f@ == Seq::<(Seq<char>, Seq<char>)>::empty(),
            f.well_formed(),
    {
        let f = Flags { pairs: Vec::new() };
        assert(f@ =~= Seq::<(Seq<char>, Seq<char>)>::empty());
        f
    }

    /// How many settings there are.
    pub fn len(&self) -> (n: usize)
        ensures
            n == self@.len(),
    {
        self.pairs.len()
    }

    /// The settings, in name order.
    pub fn pairs(&self) -> (p: &Vec<(String, String)>)
        ensures
            pairs_view(p@) == self@,
    {
        &self.pairs
    }

    /// The value set for a name, if one is.
    pub fn get(&self, key: &str) -> (r: Option<&String>)
        ensures
            match r {
                Some(v) => self.value_of(key@) == Some(v@),
                None => self.value_of(key@) is None,
            },
    {
        let wanted = chars_of(key);
        let mut i = self.pairs.len();
        assert(self@.len() == self.pairs@.len());
        assert(self@.subrange(0, i as int) =~= self@);
        while i > 0
            invariant
                i <= self.pairs.len(),
                wanted@ == key@,
                self@.len() == self.pairs@.len(),
                lookup(self@, key@) == lookup(self@.subrange(0, i as int), key@),
            decreases i,
        {
            let name = chars_of(self.pairs[i - 1].0.as_str());
            let ghost prefix = self@.subrange(0, i as int);
            assert(prefix.drop_last() =~= self@.subrange(0, i - 1));
            assert(prefix.last() == (self.pairs@[i - 1].0@, self.pairs@[i - 1].1@));
            assert(name@ == self.pairs@[i - 1].0@);
            if same(&name, &wanted) {
                assert(prefix.len() > 0);
                assert(prefix.last().0 == key@);
                assert(lookup(prefix, key@) == Some(prefix.last().1));
                return Some(&self.pairs[i - 1].1);
            }
            assert(lookup(prefix, key@) == lookup(prefix.drop_last(), key@));
            i -= 1;
        }
        assert(self@.subrange(0, 0) =~= Seq::<(Seq<char>, Seq<char>)>::empty());
        None
    }

    /// Sets a name to a value, replacing what it had, and answers with what
    /// it had.
    pub fn insert(&mut self, key: String, value: String) -> (previous: Option<String>)
        requires
            old(self).well_formed(),
        ensures
            final(self).well_formed(),
            forall|k: Seq<char>| #[trigger]
                final(self).value_of(k) == if k == key@ {
                    Some(value@)
                } else {
                    old(self).value_of(k)
                },
            match previous {
                Some(p) => old(self).value_of(key@) == Some(p@),
                None => old(self).value_of(key@) is None,
            },
    {
        let wanted = chars_of(key.as_str());
        // Where the name belongs: after every name before it.
        let mut at: usize = 0;
        let n = self.pairs.len();
        let mut searching = true;
        while searching && at < n
            invariant
                n == self.pairs.len(),
                wanted@ == key@,
                at <= n,
                self@.len() == n,
                forall|j: int| 0 <= j < at ==> text_before(#[trigger] self@[j].0, key@),
                !searching ==> at < n && !text_before(self@[at as int].0, key@),
            decreases n - at + (if searching { 1int } else { 0int }),
        {
            let name = chars_of(self.pairs[at].0.as_str());
            assert(name@ == self@[at as int].0);
            if comes_before(&name, &wanted) {
                at += 1;
            } else {
                searching = false;
            }
        }
        let ghost before = self@;
        proof {
            lemma_lookup_ordered(before, key@, at as int);
        }
        let found = at < n && same(&chars_of(self.pairs[at].0.as_str()), &wanted);
        if found {
            assert(self@[at as int].0 == key@);
            let previous = self.pairs[at].1.clone();
            let ghost old_pairs = self.pairs@;
            self.pairs.set(at, (key, value));
            proof {
                assert(self@ =~= before.update(at as int, (key@, value@)));
                lemma_lookup_update(before, key@, value@, at as int);
            }
            Some(previous)
        } else {
            proof {
                if at < n {
                    lemma_before_total(before[at as int].0, key@);
                }
            }
            self.pairs.insert(at, (key, value));
            proof {
                assert(self@ =~= before.insert(at as int, (key@, value@)));
                lemma_lookup_insert(before, key@, value@, at as int);
            }
            None
        }
    }

    /// Every setting of `other` laid over these, as `BTreeMap::extend` lays
    /// one map over another: `other`'s value wins where both name a setting.
    pub fn extend(&mut self, other: &Flags)
        requires
            old(self).well_formed(),
            other.well_formed(),
        ensures
            final(self).well_formed(),
            forall|k: Seq<char>| #[trigger]
                final(self).value_of(k) == match other.value_of(k) {
                    Some(v) => Some(v),
                    None => old(self).value_of(k),
                },
    {
        let mut i: usize = 0;
        let ghost start = *self;
        while i < other.pairs.len()
            invariant
                i <= other.pairs.len(),
                self.well_formed(),
                other.well_formed(),
                forall|k: Seq<char>| #[trigger]
                    self.value_of(k) == match lookup(other@.subrange(0, i as int), k) {
                        Some(v) => Some(v),
                        None => start.value_of(k),
                    },
            decreases other.pairs.len() - i,
        {
            let key = other.pairs[i].0.clone();
            let value = other.pairs[i].1.clone();
            self.insert(key, value);
            proof {
                let prefix = other@.subrange(0, i + 1);
                assert(prefix.drop_last() =~= other@.subrange(0, i as int));
            }
            i += 1;
        }
        assert(other@.subrange(0, other.pairs.len() as int) =~= other@);
    }
}

/// In an ordered list, a name is found only where it belongs.
pub proof fn lemma_lookup_ordered(pairs: Seq<(Seq<char>, Seq<char>)>, key: Seq<char>, at: int)
    requires
        ordered(pairs),
        0 <= at <= pairs.len(),
        forall|j: int| 0 <= j < at ==> text_before(#[trigger] pairs[j].0, key),
        at < pairs.len() ==> !text_before(pairs[at].0, key),
    ensures
        at < pairs.len() && pairs[at].0 == key ==> lookup(pairs, key) == Some(pairs[at].1),
        !(at < pairs.len() && pairs[at].0 == key) ==> lookup(pairs, key) is None,
    decreases pairs.len(),
{
    if pairs.len() == 0 {
    } else {
        let last = pairs.len() - 1;
        let rest = pairs.drop_last();
        assert(ordered(rest)) by {
            assert forall|i: int, j: int| 0 <= i < j < rest.len() implies text_before(
                rest[i].0,
                rest[j].0,
            ) by {
                assert(rest[i] == pairs[i] && rest[j] == pairs[j]);
            }
        }
        if at == pairs.len() {
            // Every name is before the key, so none is it.
            if pairs.last().0 == key {
                lemma_before_irreflexive(key);
                assert(text_before(pairs[last].0, key));
            }
            assert forall|j: int| 0 <= j < at - 1 implies text_before(#[trigger] rest[j].0, key) by {
                assert(rest[j] == pairs[j]);
            }
            lemma_lookup_ordered(rest, key, at - 1);
        } else if at == last {
            if pairs.last().0 != key {
                assert forall|j: int| 0 <= j < at implies text_before(#[trigger] rest[j].0, key) by {
                    assert(rest[j] == pairs[j]);
                }
                lemma_lookup_ordered(rest, key, at);
            }
        } else {
            // The last name is after the one at `at`, so it is after the key.
            assert(text_before(pairs[at].0, pairs[last].0));
            if pairs.last().0 == key {
                if pairs[at].0 != key {
                    lemma_before_total(pairs[at].0, key);
                    lemma_before_transitive(key, pairs[at].0, pairs[last].0);
                    lemma_before_irreflexive(key);
                }
            }
            assert forall|j: int| 0 <= j < at implies text_before(#[trigger] rest[j].0, key) by {
                assert(rest[j] == pairs[j]);
            }
            assert(rest[at] == pairs[at]);
            if pairs.last().0 == key {
                assert(pairs[at].0 == key);
                lemma_before_irreflexive(key);
            }
            lemma_lookup_ordered(rest, key, at);
        }
    }
}

/// Replacing one pair's value changes the lookup of that name and no other.
pub proof fn lemma_lookup_update(
    pairs: Seq<(Seq<char>, Seq<char>)>,
    key: Seq<char>,
    value: Seq<char>,
    at: int,
)
    requires
        ordered(pairs),
        0 <= at < pairs.len(),
        pairs[at].0 == key,
    ensures
        ordered(pairs.update(at, (key, value))),
        forall|k: Seq<char>| #[trigger]
            lookup(pairs.update(at, (key, value)), k) == if k == key {
                Some(value)
            } else {
                lookup(pairs, k)
            },
    decreases pairs.len(),
{
    let updated = pairs.update(at, (key, value));
    assert forall|i: int, j: int| 0 <= i < j < updated.len() implies text_before(
        updated[i].0,
        updated[j].0,
    ) by {
        assert(updated[i].0 == pairs[i].0 && updated[j].0 == pairs[j].0);
    }
    assert forall|k: Seq<char>| #[trigger]
        lookup(updated, k) == if k == key {
            Some(value)
        } else {
            lookup(pairs, k)
        } by {
        lemma_lookup_update_one(pairs, key, value, at, k);
    }
}

proof fn lemma_lookup_update_one(
    pairs: Seq<(Seq<char>, Seq<char>)>,
    key: Seq<char>,
    value: Seq<char>,
    at: int,
    k: Seq<char>,
)
    requires
        ordered(pairs),
        0 <= at < pairs.len(),
        pairs[at].0 == key,
    ensures
        lookup(pairs.update(at, (key, value)), k) == if k == key {
            Some(value)
        } else {
            lookup(pairs, k)
        },
    decreases pairs.len(),
{
    let updated = pairs.update(at, (key, value));
    let last = pairs.len() - 1;
    if at == last {
        assert(updated.drop_last() =~= pairs.drop_last());
        if k == key {
        } else {
        }
    } else {
        let rest = pairs.drop_last();
        assert(ordered(rest)) by {
            assert forall|i: int, j: int| 0 <= i < j < rest.len() implies text_before(
                rest[i].0,
                rest[j].0,
            ) by {
                assert(rest[i] == pairs[i] && rest[j] == pairs[j]);
            }
        }
        assert(updated.drop_last() =~= rest.update(at, (key, value)));
        assert(rest[at] == pairs[at]);
        lemma_lookup_update_one(rest, key, value, at, k);
        if k == key {
            assert(text_before(pairs[at].0, pairs[last].0));
            lemma_before_irreflexive(key);
            assert(updated.last().0 != key);
        }
    }
}

/// Inserting a name where it belongs keeps the order, and changes the
/// lookup of that name and no other.
pub proof fn lemma_lookup_insert(
    pairs: Seq<(Seq<char>, Seq<char>)>,
    key: Seq<char>,
    value: Seq<char>,
    at: int,
)
    requires
        ordered(pairs),
        0 <= at <= pairs.len(),
        forall|j: int| 0 <= j < at ==> text_before(#[trigger] pairs[j].0, key),
        at < pairs.len() ==> text_before(key, pairs[at].0),
    ensures
        ordered(pairs.insert(at, (key, value))),
        forall|k: Seq<char>| #[trigger]
            lookup(pairs.insert(at, (key, value)), k) == if k == key {
                Some(value)
            } else {
                lookup(pairs, k)
            },
{
    let inserted = pairs.insert(at, (key, value));
    assert forall|i: int, j: int| 0 <= i < j < inserted.len() implies text_before(
        inserted[i].0,
        inserted[j].0,
    ) by {
        if i < at && j == at {
        } else if i < at && j > at {
            assert(inserted[j] == pairs[j - 1]);
            if at < pairs.len() {
                lemma_before_transitive(pairs[i].0, key, pairs[at].0);
                if j - 1 > at {
                    lemma_before_transitive(pairs[i].0, pairs[at].0, pairs[j - 1].0);
                }
            }
        } else if i == at {
            assert(inserted[j] == pairs[j - 1]);
            if j - 1 > at {
                lemma_before_transitive(key, pairs[at].0, pairs[j - 1].0);
            }
        } else if i < at {
        } else {
            assert(inserted[i] == pairs[i - 1] && inserted[j] == pairs[j - 1]);
        }
    }
    assert forall|k: Seq<char>| #[trigger]
        lookup(inserted, k) == if k == key {
            Some(value)
        } else {
            lookup(pairs, k)
        } by {
        lemma_lookup_insert_one(pairs, key, value, at, k);
    }
}

proof fn lemma_lookup_insert_one(
    pairs: Seq<(Seq<char>, Seq<char>)>,
    key: Seq<char>,
    value: Seq<char>,
    at: int,
    k: Seq<char>,
)
    requires
        ordered(pairs),
        0 <= at <= pairs.len(),
        forall|j: int| 0 <= j < at ==> text_before(#[trigger] pairs[j].0, key),
        at < pairs.len() ==> text_before(key, pairs[at].0),
    ensures
        lookup(pairs.insert(at, (key, value)), k) == if k == key {
            Some(value)
        } else {
            lookup(pairs, k)
        },
    decreases pairs.len(),
{
    let inserted = pairs.insert(at, (key, value));
    if at == pairs.len() {
        assert(inserted.drop_last() =~= pairs);
    } else {
        let rest = pairs.drop_last();
        let last = pairs.len() - 1;
        assert(ordered(rest)) by {
            assert forall|i: int, j: int| 0 <= i < j < rest.len() implies text_before(
                rest[i].0,
                rest[j].0,
            ) by {
                assert(rest[i] == pairs[i] && rest[j] == pairs[j]);
            }
        }
        assert(inserted.drop_last() =~= rest.insert(at, (key, value)));
        assert(inserted.last() == pairs.last());
        assert forall|j: int| 0 <= j < at implies text_before(#[trigger] rest[j].0, key) by {
            assert(rest[j] == pairs[j]);
        }
        if at < rest.len() {
            assert(rest[at] == pairs[at]);
        }
        lemma_lookup_insert_one(rest, key, value, at, k);
        if k == key {
            if at < last {
                lemma_before_transitive(key, pairs[at].0, pairs[last].0);
            }
            lemma_before_irreflexive(key);
            assert(pairs.last().0 != key);
        }
    }
}

} // verus!
