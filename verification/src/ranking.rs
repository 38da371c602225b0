//! Fuzzy scoring and the ranking of scored candidates shared by the pickers.
//!
//! Candidates are ordered by descending fuzzy score, then descending use
//! count, then ascending name; candidates equal on all three keep their input
//! order, as a stable sort leaves them.

use vstd::prelude::*;
use vstd::multiset::Multiset;
use fuzzy_matcher::FuzzyMatcher;
use fuzzy_matcher::skim::SkimMatcherV2;

verus! {

/// The score the default skim V2 matcher gives `choice` for `pattern`
/// (smart case), or `None` when the pattern's characters do not occur in
/// order in the choice.
pub uninterp spec fn skim_score(choice: Seq<char>, pattern: Seq<char>) -> Option<i64>;

/// `SkimMatcherV2::default().fuzzy_match(choice, pattern)`. The matcher's
/// caches are scratch space, so a fresh matcher scores as a long-lived one
/// does. An empty pattern scores 0.
#[verifier::external_body]
pub(crate) fn fuzzy_match(choice: &str, pattern: &str) -> (r: Option<i64>)
    ensures
        r == skim_score(choice@, pattern@),
        pattern@.len() == 0 ==> r == Some(0i64),
{
    SkimMatcherV2::default().fuzzy_match(choice, pattern)
}

/// Strict lexicographic order on character sequences (the order of `String`
/// comparison: UTF-8 byte order agrees with code point order).
pub open spec fn lex_lt(a: Seq<char>, b: Seq<char>) -> bool
    decreases a.len(),
{
    if a.len() == 0 {
        b.len() > 0
    } else if b.len() == 0 {
        false
    } else if a[0] < b[0] {
        true
    } else if a[0] > b[0] {
        false
    } else {
        lex_lt(a.drop_first(), b.drop_first())
    }
}

pub proof fn lemma_lex_irreflexive(a: Seq<char>)
    ensures
        !lex_lt(a, a),
    decreases a.len(),
{
    if a.len() > 0 {
        lemma_lex_irreflexive(a.drop_first());
    }
}

pub proof fn lemma_lex_transitive(a: Seq<char>, b: Seq<char>, c: Seq<char>)
    requires
        lex_lt(a, b),
        lex_lt(b, c),
    ensures
        lex_lt(a, c),
    decreases a.len(),
{
    if a.len() > 0 && b.len() > 0 && c.len() > 0 && a[0] == b[0] && b[0] == c[0] {
        lemma_lex_transitive(a.drop_first(), b.drop_first(), c.drop_first());
    }
}

pub proof fn lemma_lex_total(a: Seq<char>, b: Seq<char>)
    ensures
        a == b || lex_lt(a, b) || lex_lt(b, a),
    decreases a.len(),
{
    if a.len() > 0 && b.len() > 0 && a[0] == b[0] {
        lemma_lex_total(a.drop_first(), b.drop_first());
        if a.drop_first() == b.drop_first() {
            assert(a =~= seq![a[0]] + a.drop_first());
            assert(b =~= seq![b[0]] + b.drop_first());
        }
    } else if a.len() == 0 && b.len() == 0 {
        assert(a =~= b);
    }
}

/// A candidate with its ranking keys: fuzzy score, use count, name, and its
/// position in the input.
#[derive(Clone, Debug)]
pub struct Scored {
    pub score: i64,
    pub freq: u32,
    pub name: Vec<char>,
    pub index: usize,
}

/// The ranking keys of a candidate.
pub struct RankKey {
    pub score: i64,
    pub freq: u32,
    pub name: Seq<char>,
    pub index: usize,
}

impl View for Scored {
    type V = RankKey;

    open spec fn view(&self) -> RankKey {
        RankKey { score: self.score, freq: self.freq, name: self.name@, index: self.index }
    }
}

/// `a` comes before `b`: higher score, then higher use count, then smaller
/// name, then earlier input position.
pub open spec fn ranks_before(a: RankKey, b: RankKey) -> bool {
    ||| a.score > b.score
    ||| a.score == b.score && a.freq > b.freq
    ||| a.score == b.score && a.freq == b.freq && lex_lt(a.name, b.name)
    ||| a.score == b.score && a.freq == b.freq && a.name == b.name && a.index < b.index
}

proof fn lemma_ranks_transitive(a: RankKey, b: RankKey, c: RankKey)
    requires
        ranks_before(a, b),
        ranks_before(b, c),
    ensures
        ranks_before(a, c),
{
    if a.score == b.score && b.score == c.score && a.freq == b.freq && b.freq == c.freq {
        if lex_lt(a.name, b.name) && lex_lt(b.name, c.name) {
            lemma_lex_transitive(a.name, b.name, c.name);
        }
    }
}

proof fn lemma_ranks_total(a: RankKey, b: RankKey)
    requires
        a.index != b.index,
    ensures
        ranks_before(a, b) || ranks_before(b, a),
{
    lemma_lex_total(a.name, b.name);
}

pub proof fn lemma_ranks_asymmetric(a: RankKey, b: RankKey)
    requires
        ranks_before(a, b),
    ensures
        !ranks_before(b, a),
{
    lemma_lex_irreflexive(a.name);
    if lex_lt(a.name, b.name) && lex_lt(b.name, a.name) {
        lemma_lex_transitive(a.name, b.name, a.name);
    }
}

pub fn name_lt(a: &Vec<char>, b: &Vec<char>) -> (r: bool)
    ensures
        r == lex_lt(a@, b@),
{
    let mut i: usize = 0;
    assert(a@.subrange(0, a.len() as int) =~= a@);
    assert(b@.subrange(0, b.len() as int) =~= b@);
    while i < a.len() && i < b.len() && a[i] == b[i]
        invariant
            i <= a.len(),
            i <= b.len(),
            forall|k: int| 0 <= k < i ==> a@[k] == b@[k],
            lex_lt(a@, b@) == lex_lt(a@.subrange(i as int, a.len() as int), b@.subrange(i as int, b.len() as int)),
        decreases a.len() - i,
    {
        proof {
            let sa = a@.subrange(i as int, a.len() as int);
            let sb = b@.subrange(i as int, b.len() as int);
            assert(sa.drop_first() =~= a@.subrange(i + 1, a.len() as int));
            assert(sb.drop_first() =~= b@.subrange(i + 1, b.len() as int));
        }
        i = i + 1;
    }
    if i == a.len() {
        i < b.len()
    } else if i == b.len() {
        false
    } else {
        a[i] < b[i]
    }
}

fn ranks_before_exec(a: &Scored, b: &Scored) -> (r: bool)
    ensures
        r == ranks_before(a@, b@),
{
    if a.score != b.score {
        return a.score > b.score;
    }
    if a.freq != b.freq {
        return a.freq > b.freq;
    }
    if name_lt(&a.name, &b.name) {
        return true;
    }
    if name_lt(&b.name, &a.name) {
        return false;
    }
    proof {
        lemma_lex_total(a.name@, b.name@);
    }
    a.index < b.index
}

/// No two candidates share an input position.
pub open spec fn distinct_indices(items: Seq<RankKey>) -> bool {
    forall|i: int, j: int| 0 <= i < j < items.len() ==> items[i].index != items[j].index
}

/// The ranking keys of `items`, in their order.
pub open spec fn keys_of(items: Seq<Scored>) -> Seq<RankKey> {
    items.map_values(|s: Scored| s@)
}

/// The input positions of `keys`, in their order.
pub open spec fn indices_of(keys: Seq<RankKey>) -> Seq<usize> {
    keys.map_values(|k: RankKey| k.index)
}

/// `keys` is in ranking order.
pub open spec fn is_ranked(keys: Seq<RankKey>) -> bool {
    forall|i: int, j: int| 0 <= i < j < keys.len() ==> ranks_before(keys[i], keys[j])
}

/// The input positions of the candidates in ranking order: the candidates'
/// keys rearranged into ranking order, best first. The order is strict and
/// total on candidates of distinct positions, so this arrangement is unique.
pub fn rank(items: Vec<Scored>) -> (r: Vec<usize>)
    requires
        distinct_indices(keys_of(items@)),
    ensures
        exists|sorted: Seq<RankKey>|
            #[trigger] is_ranked(sorted) && sorted.to_multiset() == keys_of(items@).to_multiset()
                && r@ == indices_of(sorted),
{
    broadcast use vstd::seq_lib::group_to_multiset_ensures;

    let ghost input = keys_of(items@);
    let mut out: Vec<Scored> = Vec::new();
    let mut rest = items;
    assert(keys_of(out@).to_multiset() =~= Multiset::empty());
    assert(keys_of(out@).to_multiset().add(keys_of(rest@).to_multiset()) =~= input.to_multiset());
    while rest.len() > 0
        invariant
            distinct_indices(keys_of(rest@)),
            forall|i: int, j: int|
                0 <= i < rest@.len() && 0 <= j < out@.len() ==> rest@[i].index != out@[j].index,
            is_ranked(keys_of(out@)),
            keys_of(out@).to_multiset().add(keys_of(rest@).to_multiset()) == input.to_multiset(),
        decreases rest.len(),
    {
        let ghost rest_before = rest@;
        let x = rest.pop().unwrap();
        proof {
            assert(rest_before =~= rest@.push(x));
            assert(keys_of(rest_before) =~= keys_of(rest@).push(x@));
            assert forall|i: int, j: int| 0 <= i < j < keys_of(rest@).len() implies keys_of(rest@)[i].index
                != keys_of(rest@)[j].index by {
                assert(keys_of(rest@)[i] == keys_of(rest_before)[i]);
                assert(keys_of(rest@)[j] == keys_of(rest_before)[j]);
            }
            assert forall|i: int| 0 <= i < out@.len() implies out@[i].index != x.index by {
                assert(rest_before[rest_before.len() - 1] == x);
            }
        }
        let mut p: usize = 0;
        while p < out.len() && !ranks_before_exec(&x, &out[p])
            invariant
                p <= out.len(),
                forall|i: int| 0 <= i < p ==> ranks_before(#[trigger] keys_of(out@)[i], x@),
                forall|i: int| 0 <= i < out@.len() ==> out@[i].index != x.index,
            decreases out.len() - p,
        {
            proof {
                lemma_ranks_total(x@, out@[p as int]@);
            }
            p = p + 1;
        }
        let ghost before = keys_of(out@);
        let ghost out_before = out@;
        out.insert(p, x);
        proof {
            let after = keys_of(out@);
            assert(after =~= before.insert(p as int, x@));
            assert forall|i: int, j: int| 0 <= i < j < after.len() implies ranks_before(
                after[i],
                after[j],
            ) by {
                if j < p {
                    assert(after[i] == before[i] && after[j] == before[j]);
                } else if j == p {
                    assert(after[i] == before[i]);
                } else if i > p {
                    assert(after[i] == before[i - 1] && after[j] == before[j - 1]);
                } else if i == p {
                    assert(after[j] == before[j - 1]);
                    assert(ranks_before(x@, before[p as int]));
                    if j - 1 > p {
                        lemma_ranks_transitive(x@, before[p as int], before[j - 1]);
                    }
                } else {
                    assert(after[i] == before[i] && after[j] == before[j - 1]);
                }
            }
            assert forall|i: int, j: int|
                0 <= i < rest@.len() && 0 <= j < out@.len() implies rest@[i].index
                != out@[j].index by {
                assert(rest@[i] == rest_before[i]);
                if j < p {
                    assert(out@[j] == out_before[j]);
                } else if j > p {
                    assert(out@[j] == out_before[j - 1]);
                } else {
                    assert(out@[j] == x);
                    let last = rest_before.len() - 1;
                    assert(keys_of(rest_before)[i].index != keys_of(rest_before)[last].index);
                    assert(rest_before[last] == x);
                }
            }
            assert(after.remove(p as int) =~= before);
            after.to_multiset_ensures();
            assert(after[p as int] == x@);
            assert(after.contains(x@));
            assert(after.remove(p as int).to_multiset() =~= after.to_multiset().remove(after[p as int]));
            assert(after.to_multiset().count(x@) > 0);
            assert(after.to_multiset() =~= before.to_multiset().insert(x@));
            keys_of(rest@).to_multiset_ensures();
            assert(keys_of(rest_before).to_multiset() =~= keys_of(rest@).to_multiset().insert(x@));
            assert(after.to_multiset().add(keys_of(rest@).to_multiset()) =~= before.to_multiset().add(
                keys_of(rest_before).to_multiset(),
            ));
        }
    }
    assert(keys_of(rest@).to_multiset() =~= Multiset::empty());
    assert(keys_of(out@).to_multiset() =~= input.to_multiset());
    let ghost sorted = keys_of(out@);
    let mut r: Vec<usize> = Vec::new();
    let mut j: usize = 0;
    while j < out.len()
        invariant
            j <= out.len(),
            sorted == keys_of(out@),
            r@ == indices_of(sorted).take(j as int),
        decreases out.len() - j,
    {
        r.push(out[j].index);
        assert(indices_of(sorted).take(j + 1) =~= indices_of(sorted).take(j as int).push(sorted[j as int].index));
        j = j + 1;
    }
    assert(indices_of(sorted).take(out.len() as int) =~= indices_of(sorted));
    assert(is_ranked(sorted));
    r
}

/// The views of `list` are in strictly increasing lexicographic order.
pub open spec fn strictly_sorted(list: Seq<Seq<char>>) -> bool {
    forall|i: int, j: int| 0 <= i < j < list.len() ==> lex_lt(list[i], list[j])
}

/// The views of a list of character vectors.
pub open spec fn words_view(list: Seq<Vec<char>>) -> Seq<Seq<char>> {
    list.map_values(|w: Vec<char>| w@)
}

/// Add `w` to a strictly sorted list of words, unless it is there already.
pub fn insert_sorted_unique(list: &mut Vec<Vec<char>>, w: Vec<char>)
    requires
        strictly_sorted(words_view(old(list)@)),
    ensures
        strictly_sorted(words_view(final(list)@)),
        forall|t: Seq<char>| words_view(final(list)@).contains(t) <==> (words_view(old(list)@).contains(t) || t == w@),
{
    let ghost before = words_view(list@);
    let mut p: usize = 0;
    while p < list.len() && name_lt(&list[p], &w)
        invariant
            p <= list.len(),
            before == words_view(list@),
            forall|i: int| 0 <= i < p ==> lex_lt(#[trigger] before[i], w@),
        decreases list.len() - p,
    {
        p = p + 1;
    }
    if p < list.len() && !name_lt(&w, &list[p]) {
        proof {
            lemma_lex_total(w@, before[p as int]);
            assert(before[p as int] == w@);
        }
        return;
    }
    proof {
        if p < before.len() {
            assert(lex_lt(w@, before[p as int]));
        }
    }
    list.insert(p, w);
    proof {
        let after = words_view(list@);
        assert(after =~= before.insert(p as int, w@));
        assert forall|i: int, j: int| 0 <= i < j < after.len() implies lex_lt(after[i], after[j]) by {
            if j < p {
            } else if j == p {
            } else if i > p {
            } else if i == p {
                assert(after[j] == before[j - 1]);
                if j - 1 > p {
                    lemma_lex_transitive(w@, before[p as int], before[j - 1]);
                }
            } else {
                assert(after[j] == before[j - 1]);
            }
        }
        assert forall|t: Seq<char>| after.contains(t) <==> (before.contains(t) || t == w@) by {
            if after.contains(t) {
                let k = choose|k: int| 0 <= k < after.len() && after[k] == t;
                if k < p {
                    assert(before[k] == t);
                } else if k > p {
                    assert(before[k - 1] == t);
                }
            }
            if before.contains(t) {
                let k = choose|k: int| 0 <= k < before.len() && before[k] == t;
                if k < p {
                    assert(after[k] == t);
                } else {
                    assert(after[k + 1] == t);
                }
            }
            if t == w@ {
                assert(after[p as int] == t);
            }
        }
    }
}

/// The selection one entry down a list of `n` entries, wrapping to the top;
/// unchanged on an empty list.
pub open spec fn next_index(selected: usize, n: nat) -> usize {
    if n > 0 {
        ((selected + 1) % (n as int)) as usize
    } else {
        selected
    }
}

/// The selection one entry up a list of `n` entries, wrapping to the bottom;
/// unchanged on an empty list.
pub open spec fn prev_index(selected: usize, n: nat) -> usize {
    if n > 0 {
        if selected == 0 {
            (n - 1) as usize
        } else {
            (selected - 1) as usize
        }
    } else {
        selected
    }
}

/// Moving the selection down and then up, or up and then down, returns to
/// the same entry while the list does not change.
pub proof fn lemma_selection_round_trip(selected: usize, n: nat)
    requires
        selected < n,
        n <= usize::MAX,
    ensures
        prev_index(next_index(selected, n), n) == selected,
        next_index(prev_index(selected, n), n) == selected,
{
    if selected + 1 < n {
        assert((selected + 1) % (n as int) == selected + 1) by (nonlinear_arith)
            requires
                0 <= selected + 1 < n,
        ;
    } else {
        assert((selected + 1) % (n as int) == 0) by (nonlinear_arith)
            requires
                selected + 1 == n,
                n > 0,
        ;
    }
    if selected == 0 {
        assert(((n - 1) + 1) % (n as int) == 0) by (nonlinear_arith)
            requires
                n > 0,
        ;
    } else {
        assert(((selected - 1) + 1) % (n as int) == selected) by (nonlinear_arith)
            requires
                0 < selected < n,
        ;
    }
}

/// The ranking order is strict and total, so a set of candidates has exactly
/// one arrangement in ranking order: two ranked sequences of the same
/// candidates are equal.
pub proof fn lemma_ranked_order_is_unique(a: Seq<RankKey>, b: Seq<RankKey>)
    requires
        is_ranked(a),
        is_ranked(b),
        a.to_multiset() == b.to_multiset(),
    ensures
        a == b,
    decreases a.len(),
{
    broadcast use vstd::seq_lib::group_to_multiset_ensures;

    a.to_multiset_ensures();
    b.to_multiset_ensures();
    if a.len() == 0 {
        assert(b.len() == 0);
        assert(a =~= b);
    } else {
        assert(b.len() == a.len());
        let x = a[0];
        let y = b[0];
        assert(a.to_multiset().count(x) > 0);
        assert(b.contains(x));
        assert(b.to_multiset().count(y) > 0);
        assert(a.contains(y));
        if x != y {
            let j = choose|j: int| 0 <= j < b.len() && b[j] == x;
            let k = choose|k: int| 0 <= k < a.len() && a[k] == y;
            assert(j != 0 && k != 0);
            assert(ranks_before(b[0], b[j]));
            assert(ranks_before(a[0], a[k]));
            lemma_ranks_asymmetric(x, y);
        }
        let a2 = a.drop_first();
        let b2 = b.drop_first();
        assert(a2 =~= a.remove(0));
        assert(b2 =~= b.remove(0));
        assert(a2.to_multiset() =~= a.to_multiset().remove(x));
        assert(b2.to_multiset() =~= b.to_multiset().remove(y));
        assert forall|i: int, j: int| 0 <= i < j < a2.len() implies ranks_before(a2[i], a2[j]) by {
            assert(a2[i] == a[i + 1] && a2[j] == a[j + 1]);
        }
        assert forall|i: int, j: int| 0 <= i < j < b2.len() implies ranks_before(b2[i], b2[j]) by {
            assert(b2[i] == b[i + 1] && b2[j] == b[j + 1]);
        }
        lemma_ranked_order_is_unique(a2, b2);
        assert(a =~= seq![x] + a2);
        assert(b =~= seq![y] + b2);
    }
}

} // verus!
