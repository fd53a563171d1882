//! How many places of a sequence hold what is looked for.

use crate::sorting;
use vstd::prelude::*;

verus! {

/// The places of `s` whose element satisfies `p`.
pub open spec fn places<A>(s: Seq<A>, p: spec_fn(A) -> bool) -> Set<int> {
    Set::new(|i: int| 0 <= i < s.len() && p(s[i]))
}

/// Picking elements out keeps one for each place.
pub proof fn lemma_places_are_counted<A>(s: Seq<A>, p: spec_fn(A) -> bool)
    ensures
        places(s, p).finite(),
        places(s, p).len() == s.filter(p).len(),
    decreases s.len(),
{
    reveal(Seq::filter);
    if s.len() == 0 {
        assert(places(s, p) =~= Set::empty());
    } else {
        let shorter = s.drop_last();
        let n = s.len() - 1;
        lemma_places_are_counted(shorter, p);
        assert forall|i: int| 0 <= i < n implies #[trigger] shorter[i] == s[i] by {}
        if p(s.last()) {
            assert(places(s, p) =~= places(shorter, p).insert(n));
            assert(!places(shorter, p).contains(n));
        } else {
            assert(places(s, p) =~= places(shorter, p));
        }
    }
}

/// Predicates that agree on the elements pick the same.
pub proof fn lemma_same_picks<A>(s: Seq<A>, p: spec_fn(A) -> bool, q: spec_fn(A) -> bool)
    requires
        forall|i: int| 0 <= i < s.len() ==> p(#[trigger] s[i]) == q(s[i]),
    ensures
        s.filter(p) == s.filter(q),
    decreases s.len(),
{
    reveal(Seq::filter);
    if s.len() > 0 {
        let shorter = s.drop_last();
        assert forall|i: int| 0 <= i < shorter.len() implies p(#[trigger] shorter[i]) == q(
            shorter[i],
        ) by {
            assert(shorter[i] == s[i]);
        }
        lemma_same_picks(shorter, p, q);
        assert(s[s.len() - 1] == s.last());
    }
}

/// Picking twice is picking by both.
pub proof fn lemma_picks_combine<A>(
    s: Seq<A>,
    p: spec_fn(A) -> bool,
    q: spec_fn(A) -> bool,
    both: spec_fn(A) -> bool,
)
    requires
        forall|a: A| #[trigger] both(a) == (p(a) && q(a)),
    ensures
        s.filter(p).filter(q) == s.filter(both),
    decreases s.len(),
{
    reveal(Seq::filter);
    if s.len() > 0 {
        lemma_picks_combine(s.drop_last(), p, q, both);
        let kept = s.drop_last().filter(p);
        if p(s.last()) {
            assert(kept.push(s.last()).drop_last() =~= kept);
        }
        assert(both(s.last()) == (p(s.last()) && q(s.last())));
    }
}

/// Sorting changes no count.
pub proof fn lemma_sorting_keeps_counts<A>(
    s: Seq<A>,
    key: spec_fn(A) -> int,
    p: spec_fn(A) -> bool,
)
    ensures
        sorting::arranged(s, key).filter(p).len() == s.filter(p).len(),
    decreases s.len(),
{
    reveal_with_fuel(Seq::filter, 2);
    if s.len() > 0 {
        let before = sorting::arranged(s.drop_last(), key);
        let x = s.last();
        sorting::lemma_arranged_ascends(s.drop_last(), key);
        sorting::lemma_slot(before, key, key(x));
        lemma_sorting_keeps_counts(s.drop_last(), key, p);
        let at = sorting::slot(before, key, key(x));
        let head = before.take(at);
        let tail = before.skip(at);
        assert(before =~= head + tail);
        assert(before.insert(at, x) =~= head + (seq![x] + tail));
        Seq::filter_distributes_over_add(head, tail, p);
        Seq::filter_distributes_over_add(seq![x], tail, p);
        Seq::filter_distributes_over_add(head, seq![x] + tail, p);
        assert(seq![x].drop_last() =~= seq![]);
    }
}

/// Sorting neither adds an element nor takes one away.
pub proof fn lemma_sorting_keeps_elements<A>(s: Seq<A>, key: spec_fn(A) -> int, x: A)
    ensures
        sorting::arranged(s, key).contains(x) <==> s.contains(x),
{
    let sorted = sorting::arranged(s, key);
    let k = key(x);
    let pred = sorting::has_key(key, k);
    sorting::lemma_arranged_is_stable(s, key, k);
    if sorted.contains(x) {
        let i = sorted.index_of(x);
        sorted.lemma_filter_contains(pred, i);
        s.lemma_filter_contains_rev(pred, x);
    }
    if s.contains(x) {
        let i = s.index_of(x);
        s.lemma_filter_contains(pred, i);
        sorted.lemma_filter_contains_rev(pred, x);
    }
}

/// What is picked is what satisfies the predicate.
pub proof fn lemma_picked_elements<A>(s: Seq<A>, p: spec_fn(A) -> bool, x: A)
    ensures
        s.filter(p).contains(x) <==> s.contains(x) && p(x),
{
    if s.filter(p).contains(x) {
        s.lemma_filter_contains_rev(p, x);
        let i = s.filter(p).index_of(x);
        s.lemma_filter_pred(p, i);
    }
    if s.contains(x) && p(x) {
        s.lemma_filter_contains(p, s.index_of(x));
    }
}

/// What is picked of an ascending sequence ascends.
pub proof fn lemma_picks_ascend<A>(s: Seq<A>, p: spec_fn(A) -> bool, key: spec_fn(A) -> int)
    requires
        sorting::ascends(s, key),
    ensures
        sorting::ascends(s.filter(p), key),
    decreases s.len(),
{
    reveal(Seq::filter);
    if s.len() > 0 {
        let shorter = s.drop_last();
        assert forall|i: int, j: int| 0 <= i < j < shorter.len() implies key(#[trigger] shorter[i])
            <= key(#[trigger] shorter[j]) by {
            assert(shorter[i] == s[i] && shorter[j] == s[j]);
        }
        lemma_picks_ascend(shorter, p, key);
        let before = shorter.filter(p);
        let after = s.filter(p);
        assert forall|i: int, j: int| 0 <= i < j < after.len() implies key(#[trigger] after[i])
            <= key(#[trigger] after[j]) by {
            assert(after[i] == before[i]);
            if j < before.len() {
                assert(after[j] == before[j]);
            } else {
                assert(before.contains(before[i]));
                shorter.lemma_filter_contains_rev(p, before[i]);
                let k = shorter.index_of(before[i]);
                assert(s[k] == before[i]);
                assert(s[s.len() - 1] == s.last());
                assert(key(s[k]) <= key(s[s.len() - 1]));
            }
        }
    }
}

/// Two places are two.
pub proof fn lemma_two_places<A>(s: Seq<A>, p: spec_fn(A) -> bool, i: int, j: int)
    requires
        0 <= i < j < s.len(),
        p(s[i]),
        p(s[j]),
    ensures
        places(s, p).len() >= 2,
{
    lemma_places_are_counted(s, p);
    let two = Set::<int>::empty().insert(i).insert(j);
    assert(two.subset_of(places(s, p)));
    vstd::set_lib::lemma_len_subset(two, places(s, p));
    assert(two.len() == 2);
}

/// Three places in a row are three.
pub proof fn lemma_three_places<A>(s: Seq<A>, p: spec_fn(A) -> bool, i: int)
    requires
        0 <= i < s.len() - 2,
        p(s[i]),
        p(s[i + 1]),
        p(s[i + 2]),
    ensures
        places(s, p).len() >= 3,
{
    lemma_places_are_counted(s, p);
    let three = Set::<int>::empty().insert(i).insert(i + 1).insert(i + 2);
    assert(three.subset_of(places(s, p)));
    vstd::set_lib::lemma_len_subset(three, places(s, p));
    assert(three.len() == 3);
}

/// Of two places one comes first.
pub proof fn lemma_two_of<A>(s: Seq<A>, p: spec_fn(A) -> bool) -> (r: (int, int))
    requires
        places(s, p).len() >= 2,
    ensures
        0 <= r.0 < r.1 < s.len(),
        p(s[r.0]),
        p(s[r.1]),
{
    lemma_places_are_counted(s, p);
    let all = places(s, p);
    let a = all.choose();
    let b = all.remove(a).choose();
    assert(all.contains(a) && all.remove(a).contains(b));
    if a < b {
        (a, b)
    } else {
        (b, a)
    }
}

/// Of three places two are not next to each other.
pub proof fn lemma_three_of<A>(s: Seq<A>, p: spec_fn(A) -> bool) -> (r: (int, int))
    requires
        places(s, p).len() >= 3,
    ensures
        0 <= r.0,
        r.0 + 2 <= r.1 < s.len(),
        p(s[r.0]),
        p(s[r.1]),
{
    lemma_places_are_counted(s, p);
    let all = places(s, p);
    let a = all.choose();
    let b = all.remove(a).choose();
    let c = all.remove(a).remove(b).choose();
    assert(all.contains(a) && all.remove(a).contains(b) && all.remove(a).remove(b).contains(c));
    if a < b && a + 1 != b {
        (a, b)
    } else if b < a && b + 1 != a {
        (b, a)
    } else if a < c && a + 1 != c {
        (a, c)
    } else if c < a && c + 1 != a {
        (c, a)
    } else if b < c {
        (b, c)
    } else {
        (c, b)
    }
}

} // verus!
