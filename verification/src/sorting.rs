//! The order that the items of a section are put in: the order of strings,
//! with items that hold the same text left in the order they came in.

use crate::text::{
    lemma_lex_lt_irreflexive, lemma_lex_lt_total, lemma_lex_lt_transitive, lex_lt, str_lt, texts,
};
use crate::table::Table;
use vstd::prelude::*;

verus! {

/// `sorted` with `x` put in behind everything that is not after it.
pub open spec fn insert_sorted(sorted: Seq<Seq<char>>, x: Seq<char>) -> Seq<Seq<char>>
    decreases sorted.len(),
{
    if sorted.len() == 0 {
        seq![x]
    } else if lex_lt(x, sorted[0]) {
        seq![x] + sorted
    } else {
        seq![sorted[0]] + insert_sorted(sorted.drop_first(), x)
    }
}

/// The texts in the order of strings.
pub open spec fn sorted_texts(s: Seq<Seq<char>>) -> Seq<Seq<char>>
    decreases s.len(),
{
    if s.len() == 0 {
        Seq::empty()
    } else {
        insert_sorted(sorted_texts(s.drop_last()), s.last())
    }
}

/// No text stands before an earlier one.
pub open spec fn nondecreasing(s: Seq<Seq<char>>) -> bool {
    forall|i: int, j: int| 0 <= i < j < s.len() ==> !lex_lt(#[trigger] s[j], #[trigger] s[i])
}

/// Behind texts that are not after `x`, putting in `x` leaves those alone
/// and works on the rest.
pub proof fn lemma_insert_sorted_skips(s: Seq<Seq<char>>, x: Seq<char>, n: int)
    requires
        0 <= n <= s.len(),
        forall|j: int| 0 <= j < n ==> !lex_lt(x, #[trigger] s[j]),
    ensures
        insert_sorted(s, x) == s.take(n) + insert_sorted(s.skip(n), x),
    decreases n,
{
    if n == 0 {
        assert(s.skip(0) =~= s);
        assert(s.take(0) + insert_sorted(s, x) =~= insert_sorted(s, x));
    } else {
        assert(!lex_lt(x, s[0]));
        let rest = s.drop_first();
        assert forall|j: int| 0 <= j < n - 1 implies !lex_lt(x, #[trigger] rest[j]) by {
            assert(rest[j] == s[j + 1]);
        }
        lemma_insert_sorted_skips(rest, x, n - 1);
        assert(rest.skip(n - 1) =~= s.skip(n));
        assert(seq![s[0]] + (rest.take(n - 1) + insert_sorted(rest.skip(n - 1), x)) =~= s.take(n)
            + insert_sorted(s.skip(n), x));
    }
}

/// A copy of the strings in the order of strings. Strings that hold the same
/// text keep the order they came in.
pub fn sorted_vec(vec: &[String]) -> (r: Vec<String>)
    ensures
        texts(r@) == sorted_texts(texts(vec@)),
{
    let mut out: Vec<String> = Vec::new();
    let mut i: usize = 0;
    proof {
        assert(texts(vec@).take(0) =~= Seq::<Seq<char>>::empty());
        assert(texts(out@) =~= Seq::<Seq<char>>::empty());
    }
    while i < vec.len()
        invariant
            i <= vec.len(),
            texts(out@) == sorted_texts(texts(vec@).take(i as int)),
        decreases vec.len() - i,
    {
        let item = vec[i].clone();
        let ghost x = item@;
        let ghost before = texts(out@);
        let mut at: usize = 0;
        while at < out.len() && !str_lt(item.as_str(), out[at].as_str())
            invariant
                at <= out.len(),
                before == texts(out@),
                x == item@,
                forall|j: int| 0 <= j < at ==> !lex_lt(x, #[trigger] before[j]),
            decreases out.len() - at,
        {
            at += 1;
        }
        proof {
            lemma_insert_sorted_skips(before, x, at as int);
            assert(texts(vec@).take(i + 1).drop_last() =~= texts(vec@).take(i as int));
            assert(texts(vec@).take(i + 1).last() == x);
            if at < out.len() {
                assert(before.skip(at as int)[0] == before[at as int]);
            }
        }
        let ghost old_out = out@;
        out.insert(at, item);
        proof {
            assert(texts(out@) =~= before.take(at as int) + (seq![x] + before.skip(at as int)));
            if at == old_out.len() {
                assert(before.skip(at as int) =~= Seq::<Seq<char>>::empty());
            }
        }
        i += 1;
    }
    proof {
        assert(texts(vec@).take(i as int) =~= texts(vec@));
    }
    out
}

/// A copy of the map. A table holds its entries in the order of their keys
/// already.
pub fn sorted_map(map: &Table<String>) -> (r: Table<String>)
    ensures
        r@ == map@,
{
    map.duplicate()
}

/// Sorting keeps the number of texts.
pub proof fn lemma_sorted_texts_len(s: Seq<Seq<char>>)
    ensures
        sorted_texts(s).len() == s.len(),
    decreases s.len(),
{
    if s.len() > 0 {
        lemma_sorted_texts_len(s.drop_last());
        lemma_insert_sorted_len(sorted_texts(s.drop_last()), s.last());
    }
}

/// Putting one text in makes the sequence one longer.
pub proof fn lemma_insert_sorted_len(s: Seq<Seq<char>>, x: Seq<char>)
    ensures
        insert_sorted(s, x).len() == s.len() + 1,
    decreases s.len(),
{
    if s.len() > 0 && !lex_lt(x, s[0]) {
        lemma_insert_sorted_len(s.drop_first(), x);
    }
}

/// Where `x` goes in `sorted`: behind everything that is not after it.
pub open spec fn insert_position(sorted: Seq<Seq<char>>, x: Seq<char>) -> int
    decreases sorted.len(),
{
    if sorted.len() == 0 || lex_lt(x, sorted[0]) {
        0
    } else {
        1 + insert_position(sorted.drop_first(), x)
    }
}

/// `insert_sorted` puts the text in at `insert_position` and leaves the rest
/// as it is.
pub proof fn lemma_insert_sorted_at(s: Seq<Seq<char>>, x: Seq<char>)
    ensures
        0 <= insert_position(s, x) <= s.len(),
        insert_sorted(s, x) == s.insert(insert_position(s, x), x),
        forall|j: int| 0 <= j < insert_position(s, x) ==> !lex_lt(x, #[trigger] s[j]),
        insert_position(s, x) < s.len() ==> lex_lt(x, s[insert_position(s, x)]),
    decreases s.len(),
{
    if s.len() == 0 {
        assert(insert_sorted(s, x) =~= s.insert(0, x));
    } else if lex_lt(x, s[0]) {
        assert(insert_sorted(s, x) =~= s.insert(0, x));
    } else {
        let rest = s.drop_first();
        lemma_insert_sorted_at(rest, x);
        let n = insert_position(rest, x);
        assert(insert_sorted(s, x) =~= s.insert(n + 1, x));
        assert forall|j: int| 0 <= j < n + 1 implies !lex_lt(x, #[trigger] s[j]) by {
            if j > 0 {
                assert(s[j] == rest[j - 1]);
            }
        }
        if n + 1 < s.len() {
            assert(s[n + 1] == rest[n]);
        }
    }
}

/// Putting a text into a sequence in which no text stands before an earlier
/// one gives such a sequence again.
pub proof fn lemma_insert_sorted_ordered(s: Seq<Seq<char>>, x: Seq<char>)
    requires
        nondecreasing(s),
    ensures
        nondecreasing(insert_sorted(s, x)),
{
    lemma_insert_sorted_at(s, x);
    let n = insert_position(s, x);
    let out = insert_sorted(s, x);
    assert forall|i: int, j: int| 0 <= i < j < out.len() implies !lex_lt(
        #[trigger] out[j],
        #[trigger] out[i],
    ) by {
        if j < n {
            assert(out[i] == s[i] && out[j] == s[j]);
        } else if j == n {
            assert(out[i] == s[i]);
        } else if i == n {
            assert(out[j] == s[j - 1]);
            if lex_lt(s[j - 1], x) {
                lemma_lex_lt_transitive(s[j - 1], x, s[n]);
                if j - 1 == n {
                    lemma_lex_lt_irreflexive(s[n]);
                }
            }
        } else if i < n {
            assert(out[i] == s[i] && out[j] == s[j - 1]);
        } else {
            assert(out[i] == s[i - 1] && out[j] == s[j - 1]);
        }
    }
}

/// In the sorted sequence no text stands before an earlier one.
pub proof fn law_sorted_texts_ordered(s: Seq<Seq<char>>)
    ensures
        nondecreasing(sorted_texts(s)),
    decreases s.len(),
{
    if s.len() > 0 {
        law_sorted_texts_ordered(s.drop_last());
        lemma_insert_sorted_ordered(sorted_texts(s.drop_last()), s.last());
    }
}

/// The sorted sequence holds the same texts, each as often as before.
pub proof fn law_sorted_texts_permutation(s: Seq<Seq<char>>)
    ensures
        sorted_texts(s).to_multiset() == s.to_multiset(),
        sorted_texts(s).len() == s.len(),
    decreases s.len(),
{
    lemma_sorted_texts_len(s);
    if s.len() == 0 {
        assert(sorted_texts(s) =~= s);
    } else {
        let front = s.drop_last();
        law_sorted_texts_permutation(front);
        lemma_insert_sorted_at(sorted_texts(front), s.last());
        vstd::seq_lib::to_multiset_insert(
            sorted_texts(front),
            insert_position(sorted_texts(front), s.last()),
            s.last(),
        );
        vstd::seq_lib::to_multiset_build(front, s.last());
        assert(front.push(s.last()) =~= s);
    }
}

/// Two sequences that hold the same texts, each as often as the other, and
/// in which no text stands before an earlier one, are the same sequence.
pub proof fn lemma_ordered_is_unique(a: Seq<Seq<char>>, b: Seq<Seq<char>>)
    requires
        nondecreasing(a),
        nondecreasing(b),
        a.to_multiset() == b.to_multiset(),
    ensures
        a == b,
    decreases a.len(),
{
    vstd::seq_lib::to_multiset_len(a);
    vstd::seq_lib::to_multiset_len(b);
    if a.len() == 0 {
        assert(a =~= b);
    } else {
        let x = a.last();
        let y = b.last();
        vstd::seq_lib::to_multiset_contains(a, x);
        vstd::seq_lib::to_multiset_contains(b, x);
        vstd::seq_lib::to_multiset_contains(a, y);
        vstd::seq_lib::to_multiset_contains(b, y);
        assert(a.contains(x));
        assert(b.contains(y));
        let j = choose|j: int| 0 <= j < b.len() && b[j] == x;
        let i = choose|i: int| 0 <= i < a.len() && a[i] == y;
        // Neither last text is before the other.
        assert(!lex_lt(y, x)) by {
            if j < b.len() - 1 {
                assert(!lex_lt(b[b.len() - 1], b[j]));
            } else {
                lemma_lex_lt_irreflexive(x);
            }
        }
        assert(!lex_lt(x, y)) by {
            if i < a.len() - 1 {
                assert(!lex_lt(a[a.len() - 1], a[i]));
            } else {
                lemma_lex_lt_irreflexive(y);
            }
        }
        lemma_lex_lt_total(x, y);
        assert(x == y);
        let fa = a.drop_last();
        let fb = b.drop_last();
        assert(fa.push(x) =~= a);
        assert(fb.push(y) =~= b);
        vstd::seq_lib::to_multiset_build(fa, x);
        vstd::seq_lib::to_multiset_build(fb, y);
        assert(fa.to_multiset() =~= a.to_multiset().remove(x));
        assert(fb.to_multiset() =~= b.to_multiset().remove(x));
        assert forall|p: int, q: int| 0 <= p < q < fa.len() implies !lex_lt(
            #[trigger] fa[q],
            #[trigger] fa[p],
        ) by {
            assert(fa[p] == a[p] && fa[q] == a[q]);
        }
        assert forall|p: int, q: int| 0 <= p < q < fb.len() implies !lex_lt(
            #[trigger] fb[q],
            #[trigger] fb[p],
        ) by {
            assert(fb[p] == b[p] && fb[q] == b[q]);
        }
        lemma_ordered_is_unique(fa, fb);
    }
}

/// The sorted sequence does not depend on the order that the texts come in:
/// two sequences that hold the same texts, each as often as the other, are
/// sorted to the same sequence.
pub proof fn law_sorted_texts_order_independent(s: Seq<Seq<char>>, t: Seq<Seq<char>>)
    requires
        s.to_multiset() == t.to_multiset(),
    ensures
        sorted_texts(s) == sorted_texts(t),
{
    law_sorted_texts_ordered(s);
    law_sorted_texts_ordered(t);
    law_sorted_texts_permutation(s);
    law_sorted_texts_permutation(t);
    lemma_ordered_is_unique(sorted_texts(s), sorted_texts(t));
}

} // verus!
