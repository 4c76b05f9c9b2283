//! A map from string keys to values that keeps its entries in the order of
//! their keys, so that walking it gives the same sequence whatever the order
//! in which the entries were put in.

use crate::fuzzy::{lemma_pick_members, lemma_pick_step, pick};
use crate::text::{
    chars_of, lemma_lex_lt_asymmetric, lemma_lex_lt_irreflexive, lemma_lex_lt_total,
    lemma_lex_lt_transitive, lex_lt, rows, str_eq, str_lt,
};
use vstd::prelude::*;
use vstd::std_specs::iter::IteratorSpec;

verus! {

/// The entries of a table as texts and value models.
pub open spec fn model<V: View>(entries: Seq<(String, V)>) -> Seq<(Seq<char>, V::V)> {
    entries.map_values(|e: (String, V)| (e.0@, e.1@))
}

/// The keys of a sequence of entries, in order.
pub open spec fn keys_of<W>(entries: Seq<(Seq<char>, W)>) -> Seq<Seq<char>> {
    entries.map_values(|e: (Seq<char>, W)| e.0)
}

/// Each text is strictly before every later one.
pub open spec fn ascending(keys: Seq<Seq<char>>) -> bool {
    forall|i: int, j: int|
        0 <= i < j < keys.len() ==> lex_lt(#[trigger] keys[i], #[trigger] keys[j])
}

/// The value that stands under `key`, if any.
pub open spec fn lookup<W>(entries: Seq<(Seq<char>, W)>, key: Seq<char>) -> Option<W>
    decreases entries.len(),
{
    if entries.len() == 0 {
        None
    } else if entries[0].0 == key {
        Some(entries[0].1)
    } else {
        lookup(entries.drop_first(), key)
    }
}

/// The entries with `value` put under `key`: in place of the entry that has
/// this key, or else in front of the first entry with a later key.
pub open spec fn inserted<W>(entries: Seq<(Seq<char>, W)>, key: Seq<char>, value: W) -> Seq<
    (Seq<char>, W),
>
    decreases entries.len(),
{
    if entries.len() == 0 {
        seq![(key, value)]
    } else if entries[0].0 == key {
        seq![(key, value)] + entries.drop_first()
    } else if lex_lt(key, entries[0].0) {
        seq![(key, value)] + entries
    } else {
        seq![entries[0]] + inserted(entries.drop_first(), key, value)
    }
}

/// All of `pairs` put into `entries`, one after another from the first on.
pub open spec fn inserted_all<W>(entries: Seq<(Seq<char>, W)>, pairs: Seq<(Seq<char>, W)>) -> Seq<
    (Seq<char>, W),
>
    decreases pairs.len(),
{
    if pairs.len() == 0 {
        entries
    } else {
        inserted(inserted_all(entries, pairs.drop_last()), pairs.last().0, pairs.last().1)
    }
}

/// Behind entries whose keys are all before `key`, putting in `key` leaves
/// those entries alone and works on the rest.
pub proof fn lemma_inserted_skips<W>(entries: Seq<(Seq<char>, W)>, key: Seq<char>, value: W, n: int)
    requires
        0 <= n <= entries.len(),
        forall|j: int| 0 <= j < n ==> lex_lt(#[trigger] entries[j].0, key),
    ensures
        inserted(entries, key, value) == entries.take(n) + inserted(entries.skip(n), key, value),
    decreases n,
{
    if n == 0 {
        assert(entries.skip(0) =~= entries);
        assert(entries.take(0) + inserted(entries, key, value) =~= inserted(entries, key, value));
    } else {
        assert(lex_lt(entries[0].0, key));
        lemma_lex_lt_irreflexive(key);
        lemma_lex_lt_asymmetric(entries[0].0, key);
        let rest = entries.drop_first();
        assert forall|j: int| 0 <= j < n - 1 implies lex_lt(#[trigger] rest[j].0, key) by {
            assert(rest[j] == entries[j + 1]);
        }
        lemma_inserted_skips(rest, key, value, n - 1);
        assert(rest.skip(n - 1) =~= entries.skip(n));
        assert(seq![entries[0]] + (rest.take(n - 1) + inserted(rest.skip(n - 1), key, value))
            =~= entries.take(n) + inserted(entries.skip(n), key, value));
    }
}

/// The keys of the entries ascend.
pub open spec fn ordered_by_key<W>(entries: Seq<(Seq<char>, W)>) -> bool {
    forall|i: int, j: int|
        0 <= i < j < entries.len() ==> lex_lt((#[trigger] entries[i]).0, (#[trigger] entries[j]).0)
}

/// `ordered_by_key` says of the entries what `ascending` says of their keys.
pub proof fn lemma_ordered_by_key<W>(entries: Seq<(Seq<char>, W)>)
    ensures
        ordered_by_key(entries) == ascending(keys_of(entries)),
{
    let ks = keys_of(entries);
    if ordered_by_key(entries) {
        assert forall|i: int, j: int| 0 <= i < j < ks.len() implies lex_lt(
            #[trigger] ks[i],
            #[trigger] ks[j],
        ) by {
            assert(lex_lt(entries[i].0, entries[j].0));
        }
    }
    if ascending(ks) {
        assert forall|i: int, j: int| 0 <= i < j < entries.len() implies lex_lt(
            (#[trigger] entries[i]).0,
            (#[trigger] entries[j]).0,
        ) by {
            assert(lex_lt(ks[i], ks[j]));
        }
    }
}

/// Every key of `out` is `key` or a key of `entries`.
pub open spec fn keys_from<W>(
    out: Seq<(Seq<char>, W)>,
    entries: Seq<(Seq<char>, W)>,
    key: Seq<char>,
) -> bool {
    forall|i: int|
        0 <= i < out.len() ==> (#[trigger] out[i]).0 == key || exists|m: int|
            0 <= m < entries.len() && (#[trigger] entries[m]).0 == out[i].0
}

/// Putting a key into ascending entries leaves them ascending, and brings in
/// no other key.
pub proof fn lemma_inserted_ascending<W>(entries: Seq<(Seq<char>, W)>, key: Seq<char>, value: W)
    requires
        ascending(keys_of(entries)),
    ensures
        ascending(keys_of(inserted(entries, key, value))),
        keys_from(inserted(entries, key, value), entries, key),
    decreases entries.len(),
{
    let out = inserted(entries, key, value);
    lemma_ordered_by_key(entries);
    lemma_ordered_by_key(out);
    if entries.len() == 0 {
    } else if entries[0].0 == key {
        assert forall|i: int, j: int| 0 <= i < j < out.len() implies lex_lt(
            (#[trigger] out[i]).0,
            (#[trigger] out[j]).0,
        ) by {
            assert(out[j] == entries[j]);
            assert(lex_lt(entries[0].0, entries[j].0));
            if i > 0 {
                assert(out[i] == entries[i]);
            }
        }
        assert forall|i: int| 0 <= i < out.len() implies (#[trigger] out[i]).0 == key || exists|
            m: int,
        |
            0 <= m < entries.len() && (#[trigger] entries[m]).0 == out[i].0 by {
            if i > 0 {
                assert(entries[i].0 == out[i].0);
            }
        }
    } else if lex_lt(key, entries[0].0) {
        assert forall|i: int, j: int| 0 <= i < j < out.len() implies lex_lt(
            (#[trigger] out[i]).0,
            (#[trigger] out[j]).0,
        ) by {
            assert(out[j] == entries[j - 1]);
            if i == 0 {
                if j > 1 {
                    assert(lex_lt(entries[0].0, entries[j - 1].0));
                    lemma_lex_lt_transitive(key, entries[0].0, entries[j - 1].0);
                }
            } else {
                assert(out[i] == entries[i - 1]);
                assert(lex_lt(entries[i - 1].0, entries[j - 1].0));
            }
        }
        assert forall|i: int| 0 <= i < out.len() implies (#[trigger] out[i]).0 == key || exists|
            m: int,
        |
            0 <= m < entries.len() && (#[trigger] entries[m]).0 == out[i].0 by {
            if i > 0 {
                assert(entries[i - 1].0 == out[i].0);
            }
        }
    } else {
        let rest = entries.drop_first();
        let sub = inserted(rest, key, value);
        lemma_ordered_by_key(rest);
        lemma_ordered_by_key(sub);
        assert forall|i: int, j: int| 0 <= i < j < rest.len() implies lex_lt(
            (#[trigger] rest[i]).0,
            (#[trigger] rest[j]).0,
        ) by {
            assert(rest[i] == entries[i + 1]);
            assert(rest[j] == entries[j + 1]);
        }
        lemma_inserted_ascending(rest, key, value);
        lemma_lex_lt_total(key, entries[0].0);
        assert(out =~= seq![entries[0]] + sub);
        assert forall|i: int| 0 <= i < out.len() implies (#[trigger] out[i]).0 == key || exists|
            m: int,
        |
            0 <= m < entries.len() && (#[trigger] entries[m]).0 == out[i].0 by {
            if i == 0 {
                assert(entries[0].0 == out[0].0);
            } else {
                assert(out[i] == sub[i - 1]);
                if sub[i - 1].0 != key {
                    let m = choose|m: int|
                        0 <= m < rest.len() && (#[trigger] rest[m]).0 == sub[i - 1].0;
                    assert(entries[m + 1].0 == out[i].0);
                }
            }
        }
        assert forall|i: int, j: int| 0 <= i < j < out.len() implies lex_lt(
            (#[trigger] out[i]).0,
            (#[trigger] out[j]).0,
        ) by {
            assert(out[j] == sub[j - 1]);
            if i == 0 {
                if sub[j - 1].0 != key {
                    let m = choose|m: int|
                        0 <= m < rest.len() && (#[trigger] rest[m]).0 == sub[j - 1].0;
                    assert(rest[m] == entries[m + 1]);
                    assert(lex_lt(entries[0].0, entries[m + 1].0));
                }
            } else {
                assert(out[i] == sub[i - 1]);
                assert(lex_lt(sub[i - 1].0, sub[j - 1].0));
            }
        }
    }
}

/// Ascending entries hold no key twice, so a key's position is its own.
pub proof fn lemma_lookup_at<W>(entries: Seq<(Seq<char>, W)>, i: int)
    requires
        ascending(keys_of(entries)),
        0 <= i < entries.len(),
    ensures
        lookup(entries, entries[i].0) == Some(entries[i].1),
    decreases i,
{
    lemma_ordered_by_key(entries);
    if i > 0 {
        assert(lex_lt(entries[0].0, entries[i].0));
        lemma_lex_lt_irreflexive(entries[i].0);
        let rest = entries.drop_first();
        lemma_ordered_by_key(rest);
        assert forall|a: int, b: int| 0 <= a < b < rest.len() implies lex_lt(
            (#[trigger] rest[a]).0,
            (#[trigger] rest[b]).0,
        ) by {
            assert(rest[a] == entries[a + 1]);
            assert(rest[b] == entries[b + 1]);
        }
        assert(rest[i - 1] == entries[i]);
        lemma_lookup_at(rest, i - 1);
    }
}

/// A key that no entry has is not found.
pub proof fn lemma_lookup_absent<W>(entries: Seq<(Seq<char>, W)>, key: Seq<char>)
    requires
        forall|i: int| 0 <= i < entries.len() ==> (#[trigger] entries[i]).0 != key,
    ensures
        lookup(entries, key) is None,
    decreases entries.len(),
{
    if entries.len() > 0 {
        let rest = entries.drop_first();
        assert forall|i: int| 0 <= i < rest.len() implies (#[trigger] rest[i]).0 != key by {
            assert(rest[i] == entries[i + 1]);
        }
        lemma_lookup_absent(rest, key);
    }
}

/// After `value` is put under `key`, that key leads to that value, and every
/// other key leads to what it led to before.
pub proof fn law_inserted_lookup<W>(
    entries: Seq<(Seq<char>, W)>,
    key: Seq<char>,
    value: W,
    other: Seq<char>,
)
    ensures
        lookup(inserted(entries, key, value), other) == if other == key {
            Some(value)
        } else {
            lookup(entries, other)
        },
    decreases entries.len(),
{
    let out = inserted(entries, key, value);
    if entries.len() == 0 {
        assert(out.drop_first() =~= entries);
    } else if entries[0].0 == key {
        assert(out.drop_first() =~= entries.drop_first());
    } else if lex_lt(key, entries[0].0) {
        assert(out.drop_first() =~= entries);
    } else {
        law_inserted_lookup(entries.drop_first(), key, value, other);
        assert(out.drop_first() =~= inserted(entries.drop_first(), key, value));
    }
}

/// A key that is found stands at some position, with the value found.
pub proof fn lemma_lookup_found<W>(entries: Seq<(Seq<char>, W)>, key: Seq<char>) -> (at: int)
    requires
        lookup(entries, key) is Some,
    ensures
        0 <= at < entries.len(),
        entries[at].0 == key,
        lookup(entries, key) == Some(entries[at].1),
    decreases entries.len(),
{
    if entries[0].0 == key {
        0
    } else {
        let at = lemma_lookup_found(entries.drop_first(), key);
        at + 1
    }
}

/// The order of the keys settles the order of the entries: two ascending
/// sequences of entries in which every key leads to the same are the same
/// sequence. So what a table holds does not depend on the order in which
/// its entries were put in.
pub proof fn law_same_entries_same_order<W>(a: Seq<(Seq<char>, W)>, b: Seq<(Seq<char>, W)>)
    requires
        ascending(keys_of(a)),
        ascending(keys_of(b)),
        forall|key: Seq<char>| lookup(a, key) == lookup(b, key),
    ensures
        a == b,
    decreases a.len(),
{
    lemma_ordered_by_key(a);
    lemma_ordered_by_key(b);
    if a.len() == 0 {
        if b.len() > 0 {
            assert(lookup(b, b[0].0) is Some);
            assert(lookup(a, b[0].0) is None);
        }
        assert(a =~= b);
    } else {
        lemma_lookup_at(a, 0);
        assert(lookup(b, a[0].0) == Some(a[0].1));
        let j = lemma_lookup_found(b, a[0].0);
        lemma_lookup_at(b, 0);
        assert(lookup(a, b[0].0) == Some(b[0].1));
        let i = lemma_lookup_found(a, b[0].0);
        if j > 0 {
            assert(lex_lt(b[0].0, b[j].0));
            if i > 0 {
                assert(lex_lt(a[0].0, a[i].0));
                lemma_lex_lt_asymmetric(a[0].0, b[0].0);
            } else {
                lemma_lex_lt_irreflexive(a[0].0);
            }
        }
        assert(b[0].0 == a[0].0);
        assert(a[0] == b[0]);
        let ra = a.drop_first();
        let rb = b.drop_first();
        lemma_ordered_by_key(ra);
        lemma_ordered_by_key(rb);
        assert forall|x: int, y: int| 0 <= x < y < ra.len() implies lex_lt(
            (#[trigger] ra[x]).0,
            (#[trigger] ra[y]).0,
        ) by {
            assert(ra[x] == a[x + 1] && ra[y] == a[y + 1]);
        }
        assert forall|x: int, y: int| 0 <= x < y < rb.len() implies lex_lt(
            (#[trigger] rb[x]).0,
            (#[trigger] rb[y]).0,
        ) by {
            assert(rb[x] == b[x + 1] && rb[y] == b[y + 1]);
        }
        assert forall|key: Seq<char>| lookup(ra, key) == lookup(rb, key) by {
            if key == a[0].0 {
                lemma_lex_lt_irreflexive(key);
                assert forall|x: int| 0 <= x < ra.len() implies (#[trigger] ra[x]).0 != key by {
                    assert(ra[x] == a[x + 1]);
                    assert(lex_lt(a[0].0, a[x + 1].0));
                }
                assert forall|x: int| 0 <= x < rb.len() implies (#[trigger] rb[x]).0 != key by {
                    assert(rb[x] == b[x + 1]);
                    assert(lex_lt(b[0].0, b[x + 1].0));
                }
                lemma_lookup_absent(ra, key);
                lemma_lookup_absent(rb, key);
            } else {
                assert(lookup(a, key) == lookup(ra, key));
                assert(lookup(b, key) == lookup(rb, key));
            }
        }
        law_same_entries_same_order(ra, rb);
        assert(a =~= seq![a[0]] + ra);
        assert(b =~= seq![b[0]] + rb);
    }
}

/// Picking entries and then taking their model is picking from the model.
pub proof fn lemma_pick_model<V: View>(entries: Seq<(String, V)>, mask: Seq<bool>)
    ensures
        model(pick(entries, mask)) == pick(model(entries), mask),
    decreases entries.len(),
{
    if entries.len() == 0 {
        assert(model(pick(entries, mask)) =~= pick(model(entries), mask));
    } else {
        lemma_pick_model(entries.drop_last(), mask);
        assert(model(entries).drop_last() =~= model(entries.drop_last()));
        assert(model(pick(entries, mask)) =~= pick(model(entries), mask));
    }
}

/// What is picked from ascending entries ascends.
pub proof fn lemma_pick_ordered<W>(entries: Seq<(Seq<char>, W)>, mask: Seq<bool>)
    requires
        ascending(keys_of(entries)),
    ensures
        ascending(keys_of(pick(entries, mask))),
    decreases entries.len(),
{
    let out = pick(entries, mask);
    lemma_ordered_by_key(entries);
    lemma_ordered_by_key(out);
    if entries.len() > 0 {
        let front = entries.drop_last();
        let sub = pick(front, mask);
        lemma_ordered_by_key(front);
        lemma_ordered_by_key(sub);
        assert forall|i: int, j: int| 0 <= i < j < front.len() implies lex_lt(
            (#[trigger] front[i]).0,
            (#[trigger] front[j]).0,
        ) by {
            assert(front[i] == entries[i]);
            assert(front[j] == entries[j]);
        }
        lemma_pick_ordered(front, mask);
        lemma_pick_members(front, mask);
        assert forall|i: int, j: int| 0 <= i < j < out.len() implies lex_lt(
            (#[trigger] out[i]).0,
            (#[trigger] out[j]).0,
        ) by {
            assert(out[i] == sub[i]);
            if j < sub.len() {
                assert(out[j] == sub[j]);
                assert(lex_lt(sub[i].0, sub[j].0));
            } else {
                let m = choose|m: int|
                    0 <= m < front.len() && m < mask.len() && mask[m] && front[m] == sub[i];
                assert(front[m] == entries[m]);
                assert(out[j] == entries[entries.len() - 1]);
                assert(lex_lt(entries[m].0, entries[entries.len() - 1].0));
            }
        }
    }
}

/// A map from string keys to values, held in the order of the keys.
#[derive(Debug, PartialEq)]
pub struct Table<V> {
    entries: Vec<(String, V)>,
}

impl<V: View> View for Table<V> {
    type V = Seq<(Seq<char>, V::V)>;

    open spec fn view(&self) -> Seq<(Seq<char>, V::V)> {
        model(self.entries())
    }
}

impl<V> Table<V> {
    /// The entries as they are held, in order.
    pub closed spec fn entries(&self) -> Seq<(String, V)> {
        self.entries@
    }

    #[verifier::type_invariant]
    spec fn ordered(&self) -> bool {
        ascending(self.entries@.map_values(|e: (String, V)| e.0@))
    }
}

impl<V: View> Table<V> {
    proof fn ordered_keys(&self)
        requires
            self.ordered(),
        ensures
            ascending(keys_of(self@)),
    {
        assert(keys_of(self@) =~= self.entries@.map_values(|e: (String, V)| e.0@));
    }

    /// The keys, in order.
    pub open spec fn keys(&self) -> Seq<Seq<char>> {
        keys_of(self@)
    }

    /// The keys of a table are strictly ascending, so none occurs twice.
    pub fn ascends(&self)
        ensures
            ascending(self.keys()),
    {
        proof {
            use_type_invariant(self);
            self.ordered_keys();
        }
    }

    /// A table without entries.
    pub fn new() -> (r: Self)
        ensures
            r@ == Seq::<(Seq<char>, V::V)>::empty(),
    {
        let r = Table { entries: Vec::new() };
        assert(r@ =~= Seq::<(Seq<char>, V::V)>::empty());
        r
    }

    /// The number of entries.
    pub fn len(&self) -> (r: usize)
        ensures
            r == self@.len(),
    {
        self.entries.len()
    }

    /// Whether there is no entry.
    pub fn is_empty(&self) -> (r: bool)
        ensures
            r == (self@.len() == 0),
    {
        self.entries.len() == 0
    }

    /// The entries, in the order of their keys.
    pub fn as_slice(&self) -> (r: &[(String, V)])
        ensures
            model(r@) == self@,
    {
        self.entries.as_slice()
    }

    /// The position of the first entry whose key is not before `key`.
    fn position(&self, key: &str) -> (r: (usize, bool))
        ensures
            r.0 <= self@.len(),
            forall|j: int| 0 <= j < r.0 ==> lex_lt(#[trigger] self@[j].0, key@),
            r.1 ==> r.0 < self@.len() && self@[r.0 as int].0 == key@,
            !r.1 ==> forall|j: int| 0 <= j < self@.len() ==> (#[trigger] self@[j]).0 != key@,
            !r.1 && r.0 < self@.len() ==> lex_lt(key@, self@[r.0 as int].0),
    {
        proof {
            use_type_invariant(self);
            self.ordered_keys();
        }
        proof {
            lemma_ordered_by_key(self@);
        }
        let mut i: usize = 0;
        while i < self.entries.len()
            invariant
                i <= self.entries.len(),
                ordered_by_key(self@),
                self@ == model(self.entries@),
                forall|j: int| 0 <= j < i ==> lex_lt(#[trigger] self@[j].0, key@),
            decreases self.entries.len() - i,
        {
            let k = self.entries[i].0.as_str();
            assert(self@[i as int].0 == k@);
            if !str_lt(k, key) {
                let same = str_eq(k, key);
                proof {
                    lemma_lex_lt_total(k@, key@);
                    assert forall|j: int| 0 <= j < self@.len() && !same implies (
                    #[trigger] self@[j]).0 != key@ by {
                        lemma_lex_lt_irreflexive(key@);
                        if j > i {
                            assert(lex_lt(self@[i as int].0, self@[j].0));
                            lemma_lex_lt_transitive(key@, k@, self@[j].0);
                        } else if j < i {
                            assert(lex_lt(self@[j].0, key@));
                        }
                    }
                }
                return (i, same);
            }
            i += 1;
        }
        proof {
            lemma_lex_lt_irreflexive(key@);
        }
        (i, false)
    }

    /// The value under `key`, if there is one.
    pub fn get(&self, key: &str) -> (r: Option<&V>)
        ensures
            r is Some <==> lookup(self@, key@) is Some,
            r matches Some(v) ==> lookup(self@, key@) == Some(v@),
    {
        proof {
            use_type_invariant(self);
            self.ordered_keys();
        }
        let (i, found) = self.position(key);
        if found {
            proof {
                lemma_lookup_at(self@, i as int);
            }
            Some(&self.entries[i].1)
        } else {
            proof {
                lemma_lookup_absent(self@, key@);
            }
            None
        }
    }

    /// Whether there is an entry under `key`.
    pub fn contains_key(&self, key: &str) -> (r: bool)
        ensures
            r == lookup(self@, key@) is Some,
            r == keys_of(self@).contains(key@),
    {
        proof {
            use_type_invariant(self);
            self.ordered_keys();
        }
        let (i, found) = self.position(key);
        proof {
            if found {
                lemma_lookup_at(self@, i as int);
                assert(keys_of(self@)[i as int] == key@);
            } else {
                lemma_lookup_absent(self@, key@);
            }
        }
        found
    }

    /// Puts `value` under `key` and gives back the value that stood there
    /// before, if there was one.
    pub fn insert(&mut self, key: String, value: V) -> (r: Option<V>)
        ensures
            final(self)@ == inserted(old(self)@, key@, value@),
            r is Some <==> lookup(old(self)@, key@) is Some,
            r matches Some(v) ==> lookup(old(self)@, key@) == Some(v@),
    {
        proof {
            use_type_invariant(&*self);
            self.ordered_keys();
        }
        let (i, found) = self.position(key.as_str());
        let ghost before = self@;
        let ghost k = key@;
        let ghost w = value@;
        proof {
            lemma_inserted_skips(before, k, w, i as int);
            lemma_inserted_ascending(before, k, w);
        }
        let mut entries: Vec<(String, V)> = Vec::new();
        std::mem::swap(&mut entries, &mut self.entries);
        assert(model(entries@) == before);
        let r = if found {
            let gone = entries.remove(i);
            entries.insert(i, (key, value));
            proof {
                lemma_lookup_at(before, i as int);
                assert(before[i as int] == (gone.0@, gone.1@));
                assert(model(entries@) =~= before.take(i as int) + (seq![(k, w)] + before.skip(
                    i as int,
                ).drop_first()));
            }
            Some(gone.1)
        } else {
            entries.insert(i, (key, value));
            proof {
                lemma_lookup_absent(before, k);
                assert(model(entries@) =~= before.take(i as int) + inserted(
                    before.skip(i as int),
                    k,
                    w,
                ));
            }
            None
        };
        assert(keys_of(model(entries@)) =~= entries@.map_values(|e: (String, V)| e.0@));
        self.entries = entries;
        r
    }

    /// The keys, each as its characters.
    pub fn key_chars(&self) -> (r: Vec<Vec<char>>)
        ensures
            rows(r@) == self.keys(),
    {
        let mut out: Vec<Vec<char>> = Vec::new();
        let mut i: usize = 0;
        while i < self.entries.len()
            invariant
                i <= self.entries.len(),
                out.len() == i,
                forall|j: int| 0 <= j < i ==> (#[trigger] out[j])@ == self.entries[j].0@,
            decreases self.entries.len() - i,
        {
            out.push(chars_of(self.entries[i].0.as_str()));
            i += 1;
        }
        assert(rows(out@) =~= self.keys());
        out
    }

    /// The table of the entries at the selected positions.
    pub fn filtered(self, mask: &[bool]) -> (r: Self)
        ensures
            r@ == pick(self@, mask@),
            r.entries() == pick(self.entries(), mask@),
    {
        proof {
            use_type_invariant(&self);
            self.ordered_keys();
        }
        let ghost all = self.entries@;
        let total = self.entries.len();
        let mut out: Vec<(String, V)> = Vec::new();
        let mut n: usize = 0;
        for entry in it: self.entries
            invariant
                it.seq() == all,
                all.len() == total,
                n == it.index(),
                out@ == pick(all.take(n as int), mask@),
        {
            proof {
                lemma_pick_step(all, mask@, n as int);
            }
            if n < mask.len() && mask[n] {
                out.push(entry);
            }
            n = n + 1;
        }
        proof {
            assert(all.take(n as int) =~= all);
            lemma_pick_model(all, mask@);
            lemma_pick_ordered(model(all), mask@);
            assert(keys_of(model(out@)) =~= out@.map_values(|e: (String, V)| e.0@));
        }
        Table { entries: out }
    }

    /// The table that holds `pairs`, put in one after another: of two pairs
    /// with the same key the later one stays.
    pub fn from_pairs(pairs: Vec<(String, V)>) -> (r: Self)
        ensures
            r@ == inserted_all(Seq::empty(), model(pairs@)),
    {
        let ghost all = pairs@;
        let mut table: Table<V> = Table::new();
        for pair in it: pairs
            invariant
                it.seq() == all,
                table@ == inserted_all(Seq::empty(), model(all.take(it.index()))),
        {
            assert(all.take(it.index() + 1).drop_last() =~= all.take(it.index()));
            assert(model(all.take(it.index() + 1)).drop_last() =~= model(all.take(it.index())));
            table.insert(pair.0, pair.1);
        }
        assert(all.take(all.len() as int) =~= all);
        table
    }
}

impl<V: View + Clone> Clone for Table<V> {
    /// A table with the same keys, each with a clone of its value.
    fn clone(&self) -> (r: Self)
        ensures
            keys_of(r@) == keys_of(self@),
            r.entries().len() == self.entries().len(),
            forall|i: int|
                0 <= i < self.entries().len() ==> cloned(
                    (#[trigger] self.entries()[i]).1,
                    r.entries()[i].1,
                ),
    {
        proof {
            use_type_invariant(self);
        }
        let mut entries: Vec<(String, V)> = Vec::new();
        let mut i: usize = 0;
        while i < self.entries.len()
            invariant
                i <= self.entries.len(),
                entries.len() == i,
                forall|j: int| 0 <= j < i ==> (#[trigger] entries[j]).0@ == self.entries[j].0@,
                forall|j: int| 0 <= j < i ==> cloned(#[trigger] self.entries@[j].1, entries@[j].1),
            decreases self.entries.len() - i,
        {
            let key = self.entries[i].0.clone();
            let value = self.entries[i].1.clone();
            entries.push((key, value));
            i += 1;
        }
        assert(entries@.map_values(|e: (String, V)| e.0@) =~= self.entries@.map_values(
            |e: (String, V)| e.0@,
        ));
        assert(keys_of(model(entries@)) =~= keys_of(model(self.entries@)));
        Table { entries }
    }
}

impl Table<crate::config::RepoSpec> {
    /// A copy of the table.
    pub fn duplicate(&self) -> (r: Self)
        ensures
            r@ == self@,
    {
        let r = self.clone();
        assert forall|i: int| 0 <= i < self@.len() implies r@[i] == self@[i] by {
            assert(keys_of(r@)[i] == keys_of(self@)[i]);
            assert(cloned(self.entries()[i].1, r.entries()[i].1));
        }
        assert(r@ =~= self@);
        r
    }
}

impl Table<String> {
    /// A copy of the table.
    pub fn duplicate(&self) -> (r: Self)
        ensures
            r@ == self@,
    {
        let r = self.clone();
        assert forall|i: int| 0 <= i < self@.len() implies r@[i] == self@[i] by {
            assert(keys_of(r@)[i] == keys_of(self@)[i]);
            assert(cloned(self.entries()[i].1, r.entries()[i].1));
        }
        assert(r@ =~= self@);
        r
    }
}

} // verus!
