//! What it is to sort a sequence by a key and keep equals in their order.

use vstd::prelude::*;

verus! {

/// Where an element with the key `k` goes in a sorted sequence: behind all
/// whose key is not greater.
pub open spec fn slot<A>(s: Seq<A>, key: spec_fn(A) -> int, k: int) -> int
    decreases s.len(),
{
    if s.len() == 0 || key(s.last()) <= k {
        s.len() as int
    } else {
        slot(s.drop_last(), key, k)
    }
}

/// The elements of `s` by ascending key, those with equal keys in the order
/// that they have in `s`.
pub open spec fn arranged<A>(s: Seq<A>, key: spec_fn(A) -> int) -> Seq<A>
    decreases s.len(),
{
    if s.len() == 0 {
        seq![]
    } else {
        let before = arranged(s.drop_last(), key);
        before.insert(slot(before, key, key(s.last())), s.last())
    }
}

/// Whether the keys of `s` ascend.
pub open spec fn ascends<A>(s: Seq<A>, key: spec_fn(A) -> int) -> bool {
    forall|i: int, j: int| 0 <= i < j < s.len() ==> key(#[trigger] s[i]) <= key(#[trigger] s[j])
}

/// Whether an element has the key `k`.
pub open spec fn has_key<A>(key: spec_fn(A) -> int, k: int) -> spec_fn(A) -> bool {
    |a: A| key(a) == k
}

/// The elements of `s` with one key, in their order.
pub open spec fn with_key<A>(s: Seq<A>, key: spec_fn(A) -> int, k: int) -> Seq<A> {
    s.filter(has_key(key, k))
}

pub(crate) proof fn lemma_slot<A>(s: Seq<A>, key: spec_fn(A) -> int, k: int)
    requires
        ascends(s, key),
    ensures
        0 <= slot(s, key, k) <= s.len(),
        forall|i: int| 0 <= i < slot(s, key, k) ==> key(#[trigger] s[i]) <= k,
        forall|i: int| slot(s, key, k) <= i < s.len() ==> key(#[trigger] s[i]) > k,
    decreases s.len(),
{
    if s.len() > 0 && key(s.last()) > k {
        lemma_slot(s.drop_last(), key, k);
        assert forall|i: int| 0 <= i < slot(s, key, k) implies key(#[trigger] s[i]) <= k by {
            assert(s[i] == s.drop_last()[i]);
        }
        assert forall|i: int| slot(s, key, k) <= i < s.len() implies key(#[trigger] s[i]) > k by {
            if i < s.len() - 1 {
                assert(s[i] == s.drop_last()[i]);
            }
        }
    }
}

/// Sorting makes the keys ascend and loses nothing.
pub proof fn lemma_arranged_ascends<A>(s: Seq<A>, key: spec_fn(A) -> int)
    ensures
        ascends(arranged(s, key), key),
        arranged(s, key).len() == s.len(),
    decreases s.len(),
{
    if s.len() > 0 {
        let before = arranged(s.drop_last(), key);
        let k = key(s.last());
        lemma_arranged_ascends(s.drop_last(), key);
        lemma_slot(before, key, k);
        let p = slot(before, key, k);
        let after = before.insert(p, s.last());
        assert forall|i: int, j: int| 0 <= i < j < after.len() implies key(#[trigger] after[i])
            <= key(#[trigger] after[j]) by {
            if i < p {
                assert(after[i] == before[i]);
            }
            if i > p {
                assert(after[i] == before[i - 1]);
            }
            if j < p {
                assert(after[j] == before[j]);
            }
            if j > p {
                assert(after[j] == before[j - 1]);
            }
        }
    }
}

/// Sorting keeps, for each key, the elements with that key in their order. So
/// it neither loses nor repeats any, and it is stable.
pub proof fn lemma_arranged_is_stable<A>(s: Seq<A>, key: spec_fn(A) -> int, k: int)
    ensures
        with_key(arranged(s, key), key, k) == with_key(s, key, k),
    decreases s.len(),
{
    reveal_with_fuel(Seq::filter, 2);
    let pred = has_key(key, k);
    if s.len() > 0 {
        let before = arranged(s.drop_last(), key);
        let x = s.last();
        lemma_arranged_ascends(s.drop_last(), key);
        lemma_slot(before, key, key(x));
        lemma_arranged_is_stable(s.drop_last(), key, k);
        let p = slot(before, key, key(x));
        let head = before.take(p);
        let tail = before.skip(p);
        assert(before =~= head + tail);
        assert(before.insert(p, x) =~= head + (seq![x] + tail));
        Seq::filter_distributes_over_add(head, tail, pred);
        Seq::filter_distributes_over_add(seq![x], tail, pred);
        Seq::filter_distributes_over_add(head, seq![x] + tail, pred);
        assert(seq![x].drop_last() =~= seq![]);
        if key(x) == k {
            assert forall|i: int| 0 <= i < tail.len() implies !pred(#[trigger] tail[i]) by {
                assert(tail[i] == before[p + i]);
            }
            tail.lemma_all_neg_filter_empty(pred);
            assert(seq![x].filter(pred) =~= seq![x]);
            assert(tail.filter(pred) =~= seq![]);
            assert(head.filter(pred) + (seq![x].filter(pred) + tail.filter(pred)) =~= (head.filter(
                pred,
            ) + tail.filter(pred)).push(x));
        } else {
            assert(seq![x].filter(pred) =~= seq![]);
            assert(head.filter(pred) + (seq![x].filter(pred) + tail.filter(pred)) =~= head.filter(
                pred,
            ) + tail.filter(pred));
        }
    }
}

proof fn lemma_last_with_key<A>(s: Seq<A>, key: spec_fn(A) -> int)
    requires
        s.len() > 0,
    ensures
        with_key(s, key, key(s.last())).len() > 0,
        with_key(s, key, key(s.last())).last() == s.last(),
        with_key(s.drop_last(), key, key(s.last())) == with_key(
            s,
            key,
            key(s.last()),
        ).drop_last(),
        forall|k: int|
            k != key(s.last()) ==> #[trigger] with_key(s.drop_last(), key, k) == with_key(
                s,
                key,
                k,
            ),
{
    reveal(Seq::filter);
    assert(with_key(s.drop_last(), key, key(s.last())) =~= with_key(
        s,
        key,
        key(s.last()),
    ).drop_last());
}

proof fn lemma_key_occurs<A>(s: Seq<A>, key: spec_fn(A) -> int, k: int)
    requires
        with_key(s, key, k).len() > 0,
    ensures
        exists|i: int| 0 <= i < s.len() && key(#[trigger] s[i]) == k,
{
    let pred = has_key(key, k);
    let x = s.filter(pred)[0];
    s.lemma_filter_pred(pred, 0);
    assert(s.filter(pred).contains(x));
    s.lemma_filter_contains_rev(pred, x);
    let i = choose|i: int| 0 <= i < s.len() && s[i] == x;
    assert(key(s[i]) == k);
}

/// Two sorted sequences that agree on each key are the same.
pub proof fn lemma_sorted_is_determined<A>(a: Seq<A>, b: Seq<A>, key: spec_fn(A) -> int)
    requires
        ascends(a, key),
        ascends(b, key),
        forall|k: int| #[trigger] with_key(a, key, k) == with_key(b, key, k),
    ensures
        a == b,
    decreases a.len(),
{
    reveal(Seq::filter);
    if a.len() == 0 {
        if b.len() > 0 {
            lemma_last_with_key(b, key);
            assert(with_key(a, key, key(b.last())) == with_key(b, key, key(b.last())));
        }
        assert(a =~= b);
    } else {
        lemma_last_with_key(a, key);
        let ka = key(a.last());
        assert(with_key(a, key, ka) == with_key(b, key, ka));
        lemma_key_occurs(b, key, ka);
        lemma_last_with_key(b, key);
        let kb = key(b.last());
        assert(with_key(a, key, kb) == with_key(b, key, kb));
        lemma_key_occurs(a, key, kb);
        let i = choose|i: int| 0 <= i < a.len() && key(#[trigger] a[i]) == kb;
        let j = choose|j: int| 0 <= j < b.len() && key(#[trigger] b[j]) == ka;
        assert(key(a[i]) <= key(a[a.len() - 1]));
        assert(key(b[j]) <= key(b[b.len() - 1]));
        assert(ka == kb);
        assert forall|k: int| #[trigger]
            with_key(a.drop_last(), key, k) == with_key(b.drop_last(), key, k) by {
            assert(with_key(a, key, k) == with_key(b, key, k));
            if k != ka {
                assert(with_key(a.drop_last(), key, k) == with_key(a, key, k));
                assert(with_key(b.drop_last(), key, k) == with_key(b, key, k));
            }
        }
        lemma_sorted_is_determined(a.drop_last(), b.drop_last(), key);
        assert(a =~= a.drop_last().push(a.last()));
        assert(b =~= b.drop_last().push(b.last()));
    }
}

/// Sequences that agree on each key sort to the same.
pub proof fn lemma_arranged_agrees<A>(a: Seq<A>, b: Seq<A>, key: spec_fn(A) -> int)
    requires
        forall|k: int| #[trigger] with_key(a, key, k) == with_key(b, key, k),
    ensures
        arranged(a, key) == arranged(b, key),
{
    lemma_arranged_ascends(a, key);
    lemma_arranged_ascends(b, key);
    assert forall|k: int| #[trigger]
        with_key(arranged(a, key), key, k) == with_key(arranged(b, key), key, k) by {
        lemma_arranged_is_stable(a, key, k);
        lemma_arranged_is_stable(b, key, k);
        assert(with_key(a, key, k) == with_key(b, key, k));
    }
    lemma_sorted_is_determined(arranged(a, key), arranged(b, key), key);
}

} // verus!
