//! Fuzzy selection: which items of a collection a list of patterns picks.
//!
//! A single item is matched against a single pattern under one named
//! strategy. A whole collection is filtered by a cascade of strategies, tried
//! in a fixed order from the strictest on: the first strategy under which
//! anything at all is selected decides for the whole collection.

use crate::engines::{glob_accepts, glob_compiles, glob_try, regex_compiles, regex_finds, regex_try};
use crate::text::{
    chars_contain, chars_end_with, chars_eq, chars_eq_ignore_ascii_case, chars_of, chars_of_each,
    chars_start_with, contains_text, ends_with, eq_ignore_ascii_case, rows, starts_with, str_eq,
    texts,
};
use crate::table::{keys_of, Table};
use vstd::prelude::*;
use vstd::string::*;

verus! {

/// An error of fuzzy matching, with its message.
#[derive(Debug)]
pub struct FuzzyError(pub String);

impl FuzzyError {
    /// The text that the error shows: its message behind a fixed label.
    pub fn to_string(&self) -> (r: String)
        ensures
            r@ == "FuzzyError: "@ + self.0@,
    {
        let mut out = String::new();
        out.append("FuzzyError: ");
        out.append(self.0.as_str());
        out
    }
}

/// The matching strategies.
#[derive(Debug, Clone, Copy, PartialEq, Eq, Structural)]
pub enum MatchType {
    Exact,
    IgnoreCase,
    Prefix,
    Suffix,
    Contains,
    Glob,
    Regex,
}

/// The strategies that filtering tries, in this order.
pub const DEFAULT_MATCH_TYPES: [MatchType; 4] = [
    MatchType::Exact,
    MatchType::IgnoreCase,
    MatchType::Prefix,
    MatchType::Contains,
];

/// The cascade as a sequence.
pub open spec fn cascade() -> Seq<MatchType> {
    seq![MatchType::Exact, MatchType::IgnoreCase, MatchType::Prefix, MatchType::Contains]
}

/// Whether `item` matches `pattern` under the strategy `mt`. A pattern that
/// its engine cannot compile matches nothing.
pub open spec fn matches_text(item: Seq<char>, pattern: Seq<char>, mt: MatchType) -> bool {
    match mt {
        MatchType::Exact => item == pattern,
        MatchType::IgnoreCase => eq_ignore_ascii_case(item, pattern),
        MatchType::Prefix => starts_with(item, pattern),
        MatchType::Suffix => ends_with(item, pattern),
        MatchType::Contains => contains_text(item, pattern),
        MatchType::Glob => glob_compiles(pattern) && glob_accepts(pattern, item),
        MatchType::Regex => regex_compiles(pattern) && regex_finds(pattern, item),
    }
}

/// What an engine's answer counts for: a match only if the pattern compiled
/// and the engine found one. A pattern that did not compile is no error of
/// the caller's: it matches nothing.
pub fn lenient<E>(outcome: Result<bool, E>) -> (r: bool)
    ensures
        r == (outcome matches Ok(found) && found),
{
    match outcome {
        Ok(found) => found,
        Err(_) => false,
    }
}

/// Whether `item` matches `pattern` under the strategy `mt`.
pub fn match_str(item: &str, pattern: &str, mt: MatchType) -> (r: bool)
    ensures
        r == matches_text(item@, pattern@, mt),
{
    match mt {
        MatchType::Exact => str_eq(item, pattern),
        MatchType::Glob => lenient(glob_try(pattern, item)),
        MatchType::Regex => lenient(regex_try(pattern, item)),
        _ => {
            let i = chars_of(item);
            let p = chars_of(pattern);
            match_chars(i.as_slice(), p.as_slice(), mt)
        },
    }
}

/// The strategies that need no engine.
pub open spec fn is_plain(mt: MatchType) -> bool {
    !(mt is Glob) && !(mt is Regex)
}

/// `match_str` for the plain strategies, on texts already split into
/// characters.
fn match_chars(item: &[char], pattern: &[char], mt: MatchType) -> (r: bool)
    requires
        is_plain(mt),
    ensures
        r == matches_text(item@, pattern@, mt),
{
    match mt {
        MatchType::Exact => chars_eq(item, pattern),
        MatchType::IgnoreCase => chars_eq_ignore_ascii_case(item, pattern),
        MatchType::Prefix => chars_start_with(item, pattern),
        MatchType::Suffix => chars_end_with(item, pattern),
        _ => chars_contain(item, pattern),
    }
}

/// Whether `item` matches at least one of the patterns under `mt`.
pub open spec fn matches_any(item: Seq<char>, patterns: Seq<Seq<char>>, mt: MatchType) -> bool {
    exists|j: int| 0 <= j < patterns.len() && matches_text(item, #[trigger] patterns[j], mt)
}

/// One pass over the collection under a single strategy: for each position,
/// whether the item there is selected. With `keeping` the selected items are
/// those that match some pattern; without it, those that match none.
pub open spec fn pass(
    items: Seq<Seq<char>>,
    patterns: Seq<Seq<char>>,
    mt: MatchType,
    keeping: bool,
) -> Seq<bool> {
    Seq::new(items.len(), |i: int| matches_any(items[i], patterns, mt) == keeping)
}

/// Whether a selection selects anything.
pub open spec fn selects_any(mask: Seq<bool>) -> bool {
    exists|i: int| 0 <= i < mask.len() && #[trigger] mask[i]
}

/// The selection that takes every position, or none.
pub open spec fn uniform(n: nat, value: bool) -> Seq<bool> {
    Seq::new(n, |i: int| value)
}

/// The position in the cascade, from `level` on, of the first strategy whose
/// pass selects anything; the length of the cascade if there is none.
pub open spec fn winning_level(
    items: Seq<Seq<char>>,
    patterns: Seq<Seq<char>>,
    keeping: bool,
    level: int,
) -> int
    decreases cascade().len() - level,
{
    if level < 0 || level >= cascade().len() {
        cascade().len() as int
    } else if selects_any(pass(items, patterns, cascade()[level], keeping)) {
        level
    } else {
        winning_level(items, patterns, keeping, level + 1)
    }
}

/// The selection that the cascade settles on: the pass of the winning
/// strategy, or nothing where no strategy selects anything.
pub open spec fn cascade_selection(
    items: Seq<Seq<char>>,
    patterns: Seq<Seq<char>>,
    keeping: bool,
) -> Seq<bool> {
    let level = winning_level(items, patterns, keeping, 0);
    if level < cascade().len() {
        pass(items, patterns, cascade()[level], keeping)
    } else {
        uniform(items.len(), false)
    }
}

/// The pattern that stands for "everything".
pub open spec fn is_wildcard(pattern: Seq<char>) -> bool {
    pattern == seq!['*']
}

/// Whether a pattern list asks for no filtering at all: it is empty, or the
/// wildcard is among its patterns.
pub open spec fn takes_all(patterns: Seq<Seq<char>>) -> bool {
    patterns.len() == 0 || exists|j: int|
        0 <= j < patterns.len() && is_wildcard(#[trigger] patterns[j])
}

/// The positions that selecting by `patterns` keeps.
pub open spec fn include_mask(items: Seq<Seq<char>>, patterns: Seq<Seq<char>>) -> Seq<bool> {
    if takes_all(patterns) {
        uniform(items.len(), true)
    } else {
        cascade_selection(items, patterns, true)
    }
}

/// The positions that are left once what `patterns` names is taken out.
pub open spec fn exclude_mask(items: Seq<Seq<char>>, patterns: Seq<Seq<char>>) -> Seq<bool> {
    if takes_all(patterns) {
        uniform(items.len(), false)
    } else {
        cascade_selection(items, patterns, false)
    }
}

/// The elements of `s` at the selected positions, in their order.
pub open spec fn pick<T>(s: Seq<T>, mask: Seq<bool>) -> Seq<T>
    decreases s.len(),
{
    if s.len() == 0 {
        Seq::empty()
    } else {
        let rest = pick(s.drop_last(), mask);
        if s.len() <= mask.len() && mask[s.len() - 1] {
            rest.push(s.last())
        } else {
            rest
        }
    }
}

/// The items that `patterns` selects.
pub open spec fn included(items: Seq<Seq<char>>, patterns: Seq<Seq<char>>) -> Seq<Seq<char>> {
    pick(items, include_mask(items, patterns))
}

/// The items that are left once what `patterns` names is taken out.
pub open spec fn excluded(items: Seq<Seq<char>>, patterns: Seq<Seq<char>>) -> Seq<Seq<char>> {
    pick(items, exclude_mask(items, patterns))
}

fn matches_any_of(item: &[char], patterns: &Vec<Vec<char>>, mt: MatchType) -> (r: bool)
    requires
        is_plain(mt),
    ensures
        r == matches_any(item@, rows(patterns@), mt),
{
    let mut j: usize = 0;
    while j < patterns.len()
        invariant
            j <= patterns.len(),
            is_plain(mt),
            forall|k: int| 0 <= k < j ==> !matches_text(item@, #[trigger] rows(patterns@)[k], mt),
        decreases patterns.len() - j,
    {
        if match_chars(item, patterns[j].as_slice(), mt) {
            assert(rows(patterns@)[j as int] == patterns[j as int]@);
            return true;
        }
        assert(rows(patterns@)[j as int] == patterns[j as int]@);
        j += 1;
    }
    false
}

fn run_pass(
    items: &Vec<Vec<char>>,
    patterns: &Vec<Vec<char>>,
    mt: MatchType,
    keeping: bool,
) -> (r: (Vec<bool>, bool))
    requires
        is_plain(mt),
    ensures
        r.0@ == pass(rows(items@), rows(patterns@), mt, keeping),
        r.1 == selects_any(r.0@),
{
    let mut mask: Vec<bool> = Vec::new();
    let mut any: bool = false;
    let mut i: usize = 0;
    while i < items.len()
        invariant
            i <= items.len(),
            is_plain(mt),
            mask.len() == i,
            forall|k: int|
                0 <= k < i ==> #[trigger] mask[k] == (matches_any(
                    rows(items@)[k],
                    rows(patterns@),
                    mt,
                ) == keeping),
            any == selects_any(mask@),
        decreases items.len() - i,
    {
        let hit = matches_any_of(items[i].as_slice(), patterns, mt) == keeping;
        assert(rows(items@)[i as int] == items[i as int]@);
        let ghost before = mask@;
        mask.push(hit);
        proof {
            if any {
                let w = choose|w: int| 0 <= w < before.len() && before[w];
                assert(mask@[w]);
            }
            if hit {
                assert(mask@[i as int]);
            }
            if selects_any(mask@) && !hit {
                let w = choose|w: int| 0 <= w < mask@.len() && mask@[w];
                assert(before[w]);
            }
        }
        any = any || hit;
        i += 1;
    }
    assert(mask@ =~= pass(rows(items@), rows(patterns@), mt, keeping));
    (mask, any)
}

fn uniform_mask(n: usize, value: bool) -> (mask: Vec<bool>)
    ensures
        mask@ == uniform(n as nat, value),
{
    let mut mask: Vec<bool> = Vec::new();
    let mut i: usize = 0;
    while i < n
        invariant
            i <= n,
            mask.len() == i,
            forall|k: int| 0 <= k < i ==> #[trigger] mask[k] == value,
        decreases n - i,
    {
        mask.push(value);
        i += 1;
    }
    assert(mask@ =~= uniform(n as nat, value));
    mask
}

fn wants_all(patterns: &[String]) -> (r: bool)
    ensures
        r == takes_all(texts(patterns@)),
{
    if patterns.len() == 0 {
        return true;
    }
    let mut j: usize = 0;
    while j < patterns.len()
        invariant
            j <= patterns.len(),
            patterns.len() > 0,
            forall|k: int| 0 <= k < j ==> !is_wildcard(#[trigger] texts(patterns@)[k]),
        decreases patterns.len() - j,
    {
        proof {
            reveal_strlit("*");
            assert("*"@ =~= seq!['*']);
        }
        assert(texts(patterns@)[j as int] == patterns[j as int]@);
        if str_eq(patterns[j].as_str(), "*") {
            return true;
        }
        j += 1;
    }
    false
}

/// Works out which positions of `items` a pattern list selects (`keeping`)
/// or leaves (`!keeping`).
pub(crate) fn selection(items: &Vec<Vec<char>>, patterns: &[String], keeping: bool) -> (mask: Vec<
    bool,
>)
    ensures
        keeping ==> mask@ == include_mask(rows(items@), texts(patterns@)),
        !keeping ==> mask@ == exclude_mask(rows(items@), texts(patterns@)),
{
    if wants_all(patterns) {
        return uniform_mask(items.len(), keeping);
    }
    let pats = chars_of_each(patterns);
    let mut level: usize = 0;
    while level < DEFAULT_MATCH_TYPES.len()
        invariant
            level <= 4,
            DEFAULT_MATCH_TYPES@ == cascade(),
            !takes_all(texts(patterns@)),
            rows(pats@) == texts(patterns@),
            winning_level(rows(items@), texts(patterns@), keeping, 0) == winning_level(
                rows(items@),
                texts(patterns@),
                keeping,
                level as int,
            ),
        decreases 4 - level,
    {
        let mt = DEFAULT_MATCH_TYPES[level];
        let (mask, any) = run_pass(items, &pats, mt, keeping);
        if any {
            return mask;
        }
        level += 1;
    }
    uniform_mask(items.len(), false)
}

/// A collection that a list of patterns can filter. What is held against the
/// patterns is the text of each item, or of each key where the collection is
/// a map; the values of a map play no part.
pub trait Fuzz: Sized {
    type Output;

    /// The texts that the patterns are held against, in the collection's
    /// order.
    spec fn candidates(&self) -> Seq<Seq<char>>;

    /// The same for a filtered collection.
    spec fn output_candidates(out: &Self::Output) -> Seq<Seq<char>>;

    /// Keeps what the patterns select. An empty list, or one with the
    /// wildcard `*` among its patterns, keeps everything. Any other list
    /// keeps the items that match one of its patterns under the first
    /// strategy of the cascade under which any item matches one.
    fn include_only(self, patterns: &[String]) -> (r: Self::Output)
        ensures
            Self::output_candidates(&r) == included(self.candidates(), texts(patterns@)),
    ;

    /// Keeps what is left once the patterns' choice is taken out. An empty
    /// list, or one with the wildcard `*` among its patterns, leaves nothing.
    /// Any other list leaves the items that match none of its patterns under
    /// the first strategy of the cascade under which any item is left.
    fn exclude(self, patterns: &[String]) -> (r: Self::Output)
        ensures
            Self::output_candidates(&r) == excluded(self.candidates(), texts(patterns@)),
    ;

    /// The collection itself.
    fn defuzz(self) -> (r: Self::Output)
        ensures
            Self::output_candidates(&r) == self.candidates(),
    ;
}

fn pick_strings(items: &Vec<String>, mask: &Vec<bool>) -> (r: Vec<String>)
    ensures
        r@ == pick(items@, mask@),
{
    let mut out: Vec<String> = Vec::new();
    let mut i: usize = 0;
    while i < items.len()
        invariant
            i <= items.len(),
            out@ == pick(items@.take(i as int), mask@),
        decreases items.len() - i,
    {
        proof {
            lemma_pick_step(items@, mask@, i as int);
        }
        if i < mask.len() && mask[i] {
            out.push(items[i].clone());
        }
        i += 1;
    }
    assert(items@.take(i as int) =~= items@);
    out
}

impl Fuzz for Vec<String> {
    type Output = Vec<String>;

    open spec fn candidates(&self) -> Seq<Seq<char>> {
        texts(self@)
    }

    open spec fn output_candidates(out: &Vec<String>) -> Seq<Seq<char>> {
        texts(out@)
    }

    fn include_only(self, patterns: &[String]) -> (r: Vec<String>)
        ensures
            r@ == pick(self@, include_mask(texts(self@), texts(patterns@))),
    {
        let chars = chars_of_each(self.as_slice());
        let mask = selection(&chars, patterns, true);
        proof {
            lemma_pick_texts(self@, mask@);
        }
        pick_strings(&self, &mask)
    }

    fn exclude(self, patterns: &[String]) -> (r: Vec<String>)
        ensures
            r@ == pick(self@, exclude_mask(texts(self@), texts(patterns@))),
    {
        let chars = chars_of_each(self.as_slice());
        let mask = selection(&chars, patterns, false);
        proof {
            lemma_pick_texts(self@, mask@);
        }
        pick_strings(&self, &mask)
    }

    fn defuzz(self) -> (r: Vec<String>)
        ensures
            r == self,
    {
        self
    }
}

impl<V: View> Fuzz for Table<V> {
    type Output = Table<V>;

    open spec fn candidates(&self) -> Seq<Seq<char>> {
        self.keys()
    }

    open spec fn output_candidates(out: &Table<V>) -> Seq<Seq<char>> {
        out.keys()
    }

    fn include_only(self, patterns: &[String]) -> (r: Table<V>)
        ensures
            r@ == pick(self@, include_mask(self.keys(), texts(patterns@))),
            r.entries() == pick(self.entries(), include_mask(self.keys(), texts(patterns@))),
    {
        let chars = self.key_chars();
        let mask = selection(&chars, patterns, true);
        proof {
            lemma_pick_keys(self@, mask@);
        }
        self.filtered(mask.as_slice())
    }

    fn exclude(self, patterns: &[String]) -> (r: Table<V>)
        ensures
            r@ == pick(self@, exclude_mask(self.keys(), texts(patterns@))),
            r.entries() == pick(self.entries(), exclude_mask(self.keys(), texts(patterns@))),
    {
        let chars = self.key_chars();
        let mask = selection(&chars, patterns, false);
        proof {
            lemma_pick_keys(self@, mask@);
        }
        self.filtered(mask.as_slice())
    }

    fn defuzz(self) -> (r: Table<V>)
        ensures
            r == self,
    {
        self
    }
}

/// Entry to filtering: hands the collection back as it is, ready for
/// `include_only`, `exclude` or `defuzz`.
pub fn fuzzy<T>(obj: T) -> (r: T) where T: Fuzz<Output = T>
    ensures
        r == obj,
{
    obj
}

/// Taking one element more of `s` adds that element to what is picked, if
/// its position is selected.
pub proof fn lemma_pick_step<T>(s: Seq<T>, mask: Seq<bool>, n: int)
    requires
        0 <= n < s.len(),
    ensures
        pick(s.take(n + 1), mask) == if n < mask.len() && mask[n] {
            pick(s.take(n), mask).push(s[n])
        } else {
            pick(s.take(n), mask)
        },
{
    assert(s.take(n + 1).drop_last() =~= s.take(n));
}

/// Whatever is picked stands in `s` at a selected position.
pub proof fn lemma_pick_members<T>(s: Seq<T>, mask: Seq<bool>)
    ensures
        pick(s, mask).len() <= s.len(),
        forall|k: int|
            0 <= k < pick(s, mask).len() ==> exists|j: int|
                0 <= j < s.len() && j < mask.len() && mask[j] && s[j] == #[trigger] pick(
                    s,
                    mask,
                )[k],
    decreases s.len(),
{
    if s.len() > 0 {
        let front = s.drop_last();
        lemma_pick_members(front, mask);
        assert forall|k: int| 0 <= k < pick(s, mask).len() implies exists|j: int|
            0 <= j < s.len() && j < mask.len() && mask[j] && s[j] == #[trigger] pick(
                s,
                mask,
            )[k] by {
            if k < pick(front, mask).len() {
                assert(pick(s, mask)[k] == pick(front, mask)[k]);
                let j = choose|j: int|
                    0 <= j < front.len() && j < mask.len() && mask[j] && front[j] == pick(
                        front,
                        mask,
                    )[k];
                assert(s[j] == front[j]);
            } else {
                assert(s[s.len() - 1] == pick(s, mask)[k]);
            }
        }
    }
}

/// Every element at a selected position is picked.
pub proof fn lemma_pick_keeps<T>(s: Seq<T>, mask: Seq<bool>, j: int)
    requires
        0 <= j < s.len(),
        j < mask.len(),
        mask[j],
    ensures
        pick(s, mask).contains(s[j]),
    decreases s.len(),
{
    let front = s.drop_last();
    if j == s.len() - 1 {
        assert(pick(s, mask).last() == s[j]);
    } else {
        lemma_pick_keeps(front, mask, j);
        let k = choose|k: int| 0 <= k < pick(front, mask).len() && pick(front, mask)[k] == front[j];
        assert(pick(s, mask)[k] == s[j]);
    }
}

/// Picking at every position gives the whole sequence; picking at none
/// gives nothing.
pub proof fn lemma_pick_uniform<T>(s: Seq<T>, n: nat)
    requires
        n >= s.len(),
    ensures
        pick(s, uniform(n, true)) == s,
        pick(s, uniform(n, false)) == Seq::<T>::empty(),
    decreases s.len(),
{
    if s.len() > 0 {
        lemma_pick_uniform(s.drop_last(), n);
        assert(s.drop_last().push(s.last()) =~= s);
    }
}

/// Picking entries and then taking their keys is picking from the keys.
pub proof fn lemma_pick_keys<W>(entries: Seq<(Seq<char>, W)>, mask: Seq<bool>)
    ensures
        keys_of(pick(entries, mask)) == pick(keys_of(entries), mask),
    decreases entries.len(),
{
    if entries.len() == 0 {
        assert(keys_of(pick(entries, mask)) =~= pick(keys_of(entries), mask));
    } else {
        lemma_pick_keys(entries.drop_last(), mask);
        assert(keys_of(entries).drop_last() =~= keys_of(entries.drop_last()));
        assert(keys_of(pick(entries, mask)) =~= pick(keys_of(entries), mask));
    }
}

/// Picking strings and then taking their texts is picking from the texts.
pub proof fn lemma_pick_texts(items: Seq<String>, mask: Seq<bool>)
    ensures
        texts(pick(items, mask)) == pick(texts(items), mask),
    decreases items.len(),
{
    if items.len() == 0 {
        assert(texts(pick(items, mask)) =~= pick(texts(items), mask));
    } else {
        lemma_pick_texts(items.drop_last(), mask);
        assert(texts(items).drop_last() =~= texts(items.drop_last()));
        assert(texts(pick(items, mask)) =~= pick(texts(items), mask));
    }
}

/// The wildcard alone, as a pattern list.
pub open spec fn wildcard_only() -> Seq<Seq<char>> {
    seq![seq!['*']]
}

/// With the wildcard among the patterns, selecting keeps every item as it
/// is, and excluding leaves none: of a list `items` whose texts are `texts`,
/// or of a map with these entries and keys.
pub proof fn law_wildcard<T>(items: Seq<T>, texts: Seq<Seq<char>>, patterns: Seq<Seq<char>>)
    requires
        texts.len() == items.len(),
        exists|j: int| 0 <= j < patterns.len() && is_wildcard(#[trigger] patterns[j]),
    ensures
        pick(items, include_mask(texts, patterns)) == items,
        pick(items, exclude_mask(texts, patterns)) == Seq::<T>::empty(),
{
    lemma_pick_uniform(items, texts.len());
}

/// For lists of texts: with the wildcard as the pattern, selecting gives the
/// list back and excluding gives the empty list.
pub proof fn law_wildcard_identity(items: Seq<Seq<char>>)
    ensures
        included(items, wildcard_only()) == items,
        excluded(items, wildcard_only()) == Seq::<Seq<char>>::empty(),
{
    assert(is_wildcard(wildcard_only()[0]));
    law_wildcard(items, items, wildcard_only());
}

/// Without any pattern, selecting keeps every item as it is, and excluding
/// leaves none: of a list `items` whose texts are `texts`, or of a map with
/// these entries and keys.
pub proof fn law_no_patterns<T>(items: Seq<T>, texts: Seq<Seq<char>>)
    requires
        texts.len() == items.len(),
    ensures
        pick(items, include_mask(texts, Seq::empty())) == items,
        pick(items, exclude_mask(texts, Seq::empty())) == Seq::<T>::empty(),
{
    lemma_pick_uniform(items, texts.len());
}

/// For lists of texts: without any pattern, selecting gives the list back
/// and excluding gives the empty list.
pub proof fn law_empty_patterns(items: Seq<Seq<char>>)
    ensures
        included(items, Seq::empty()) == items,
        excluded(items, Seq::empty()) == Seq::<Seq<char>>::empty(),
{
    law_no_patterns(items, items);
}

/// The strategy that decides a call: the first one of the cascade under
/// which the call selects anything, if there is one.
pub open spec fn deciding(items: Seq<Seq<char>>, patterns: Seq<Seq<char>>, keeping: bool) -> Option<
    MatchType,
> {
    let level = winning_level(items, patterns, keeping, 0);
    if level < cascade().len() {
        Some(cascade()[level])
    } else {
        None
    }
}

/// What selecting keeps and what excluding leaves are both drawn from the
/// items. Where, for a list of patterns without the wildcard, the same
/// strategy decides both calls, no item is in both results. Where different
/// strategies decide, an item can be in both: the cascade runs for each call
/// on its own.
pub proof fn law_exclude_complement(items: Seq<Seq<char>>, patterns: Seq<Seq<char>>)
    ensures
        forall|t: Seq<char>| included(items, patterns).contains(t) ==> items.contains(t),
        forall|t: Seq<char>| excluded(items, patterns).contains(t) ==> items.contains(t),
        !takes_all(patterns) && deciding(items, patterns, true) == deciding(items, patterns, false)
            ==> forall|t: Seq<char>|
            !(included(items, patterns).contains(t) && excluded(items, patterns).contains(t)),
{
    let inc = include_mask(items, patterns);
    let exc = exclude_mask(items, patterns);
    lemma_pick_members(items, inc);
    lemma_pick_members(items, exc);
    assert forall|t: Seq<char>| included(items, patterns).contains(t) implies items.contains(t) by {
        let k = choose|k: int| 0 <= k < pick(items, inc).len() && pick(items, inc)[k] == t;
        let j = choose|j: int|
            0 <= j < items.len() && j < inc.len() && inc[j] && items[j] == pick(items, inc)[k];
        assert(items[j] == t);
    }
    assert forall|t: Seq<char>| excluded(items, patterns).contains(t) implies items.contains(t) by {
        let k = choose|k: int| 0 <= k < pick(items, exc).len() && pick(items, exc)[k] == t;
        let j = choose|j: int|
            0 <= j < items.len() && j < exc.len() && exc[j] && items[j] == pick(items, exc)[k];
        assert(items[j] == t);
    }
    if !takes_all(patterns) && deciding(items, patterns, true) == deciding(items, patterns, false) {
        let li = winning_level(items, patterns, true, 0);
        let le = winning_level(items, patterns, false, 0);
        lemma_winning_level_bounds(items, patterns, true, 0);
        lemma_winning_level_bounds(items, patterns, false, 0);
        assert(li == le) by {
            if li < cascade().len() && le < cascade().len() && li != le {
                assert(cascade()[li] != cascade()[le]);
            }
        }
        assert forall|t: Seq<char>|
            !(included(items, patterns).contains(t) && excluded(items, patterns).contains(
                t,
            )) by {
            if included(items, patterns).contains(t) && excluded(items, patterns).contains(t) {
                let k = choose|k: int| 0 <= k < pick(items, inc).len() && pick(items, inc)[k] == t;
                let j = choose|j: int|
                    0 <= j < items.len() && j < inc.len() && inc[j] && items[j] == pick(
                        items,
                        inc,
                    )[k];
                let k2 = choose|k: int| 0 <= k < pick(items, exc).len() && pick(items, exc)[k] == t;
                let j2 = choose|j: int|
                    0 <= j < items.len() && j < exc.len() && exc[j] && items[j] == pick(
                        items,
                        exc,
                    )[k2];
                assert(items[j] == items[j2]);
            }
        }
    }
}

/// For a list of patterns without the wildcard, every item is kept by
/// selecting or left by excluding, whichever strategies decide the two
/// calls.
pub proof fn law_nothing_lost(items: Seq<Seq<char>>, patterns: Seq<Seq<char>>)
    requires
        !takes_all(patterns),
    ensures
        forall|t: Seq<char>|
            items.contains(t) ==> included(items, patterns).contains(t) || excluded(
                items,
                patterns,
            ).contains(t),
{
    let inc = include_mask(items, patterns);
    let exc = exclude_mask(items, patterns);
    let li = winning_level(items, patterns, true, 0);
    let le = winning_level(items, patterns, false, 0);
    lemma_winning_level_bounds(items, patterns, true, 0);
    lemma_winning_level_bounds(items, patterns, false, 0);
    assert forall|t: Seq<char>| items.contains(t) implies included(items, patterns).contains(t)
        || excluded(items, patterns).contains(t) by {
        let j = choose|j: int| 0 <= j < items.len() && items[j] == t;
        if li < cascade().len() && inc[j] {
            lemma_pick_keeps(items, inc, j);
        } else {
            // The item matches nothing under the strategy that decides the
            // selecting call, or under any strategy where none decides it.
            if le == cascade().len() {
                // Then excluding finds every item matched under every
                // strategy, this one too.
                let probe = if li < cascade().len() {
                    li
                } else {
                    0
                };
                lemma_before_winner(items, patterns, false, 0, probe);
                let p = pass(items, patterns, cascade()[probe], false);
                if li == cascade().len() {
                    lemma_before_winner(items, patterns, true, 0, probe);
                    assert(!pass(items, patterns, cascade()[probe], true)[j]);
                }
                assert(p[j]);
                assert(false);
            }
            if le < li {
                lemma_before_winner(items, patterns, true, 0, le);
                assert(!pass(items, patterns, cascade()[le], true)[j]);
            } else if le > li {
                lemma_before_winner(items, patterns, false, 0, li);
                assert(pass(items, patterns, cascade()[li], false)[j]);
                assert(false);
            }
            assert(exc[j]);
            lemma_pick_keeps(items, exc, j);
        }
    }
}

/// Under a strategy that comes before the winning one, the pass selects
/// nothing.
pub proof fn lemma_before_winner(
    items: Seq<Seq<char>>,
    patterns: Seq<Seq<char>>,
    keeping: bool,
    from: int,
    level: int,
)
    requires
        0 <= from <= level < winning_level(items, patterns, keeping, from),
        level < cascade().len(),
    ensures
        !selects_any(pass(items, patterns, cascade()[level], keeping)),
    decreases level - from,
{
    if from < level {
        lemma_before_winner(items, patterns, keeping, from + 1, level);
    }
}

/// The winning level lies in the cascade or just behind it.
pub proof fn lemma_winning_level_bounds(
    items: Seq<Seq<char>>,
    patterns: Seq<Seq<char>>,
    keeping: bool,
    level: int,
)
    requires
        0 <= level <= cascade().len(),
    ensures
        level <= winning_level(items, patterns, keeping, level) <= cascade().len(),
    decreases cascade().len() - level,
{
    if level < cascade().len() && !selects_any(pass(items, patterns, cascade()[level], keeping)) {
        lemma_winning_level_bounds(items, patterns, keeping, level + 1);
    }
}

} // verus!
