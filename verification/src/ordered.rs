//! Order on text, and a map from text to values that keeps its keys in order.

use crate::text::chars_of;
use vstd::prelude::*;

verus! {

// ---------------------------------------------------------------------------
// Lexicographic order
// ---------------------------------------------------------------------------

/// Whether `a` comes before `b` because of position `i`: up to there they
/// agree, and there `a` has ended or has the smaller character.
pub open spec fn less_at(a: Seq<char>, b: Seq<char>, i: int) -> bool {
    &&& 0 <= i <= a.len()
    &&& i < b.len()
    &&& forall|j: int| 0 <= j < i ==> a[j] == b[j]
    &&& i == a.len() || a[i] < b[i]
}

/// Whether `a` comes before `b` in lexicographic order.
pub open spec fn text_less(a: Seq<char>, b: Seq<char>) -> bool {
    exists|i: int| less_at(a, b, i)
}

/// Nothing comes before itself.
pub proof fn lemma_less_irreflexive(a: Seq<char>)
    ensures
        !text_less(a, a),
{
}

/// The order is transitive.
pub proof fn lemma_less_transitive(a: Seq<char>, b: Seq<char>, c: Seq<char>)
    requires
        text_less(a, b),
        text_less(b, c),
    ensures
        text_less(a, c),
{
    let i = choose|i: int| less_at(a, b, i);
    let j = choose|j: int| less_at(b, c, j);
    let k = if i < j {
        i
    } else {
        j
    };
    assert(less_at(a, c, k));
}

/// Of two texts one comes first, unless they are equal.
pub proof fn lemma_less_total(a: Seq<char>, b: Seq<char>)
    ensures
        a == b || text_less(a, b) || text_less(b, a),
    decreases a.len(),
{
    let i = agree(a, b, 0);
    lemma_agree(a, b, 0);
    if i == a.len() && i == b.len() {
        assert(a =~= b);
    } else if i < b.len() && (i == a.len() || a[i] < b[i]) {
        assert(less_at(a, b, i));
    } else {
        assert(less_at(b, a, i));
    }
}

spec fn agree(a: Seq<char>, b: Seq<char>, i: int) -> int
    decreases a.len() - i,
{
    if i < a.len() && i < b.len() && a[i] == b[i] {
        agree(a, b, i + 1)
    } else {
        i
    }
}

proof fn lemma_agree(a: Seq<char>, b: Seq<char>, i: int)
    requires
        0 <= i <= a.len(),
        i <= b.len(),
        forall|j: int| 0 <= j < i ==> a[j] == b[j],
    ensures
        ({
            let k = agree(a, b, i);
            &&& 0 <= k <= a.len()
            &&& k <= b.len()
            &&& forall|j: int| 0 <= j < k ==> a[j] == b[j]
            &&& k == a.len() || k == b.len() || a[k] != b[k]
        }),
    decreases a.len() - i,
{
    if i < a.len() && i < b.len() && a[i] == b[i] {
        lemma_agree(a, b, i + 1);
    }
}

/// How one text stands to another.
#[derive(Debug, Clone, Copy, PartialEq, Eq, Structural)]
pub enum Place {
    Before,
    Same,
    After,
}

/// Where `a` stands in lexicographic order against `b`.
pub fn place(a: &str, b: &str) -> (r: Place)
    ensures
        r == Place::Same <==> a@ == b@,
        r == Place::Before <==> text_less(a@, b@),
        r == Place::After <==> text_less(b@, a@),
{
    let left = chars_of(a);
    let right = chars_of(b);
    let mut i: usize = 0;
    while i < left.len() && i < right.len()
        invariant
            left@ == a@,
            right@ == b@,
            i <= left.len(),
            i <= right.len(),
            forall|j: int| 0 <= j < i ==> a@[j] == b@[j],
        decreases left.len() - i,
    {
        if left[i] != right[i] {
            proof {
                lemma_not_both_ways(a@, b@);
                if left[i as int] < right[i as int] {
                    assert(less_at(a@, b@, i as int));
                } else {
                    assert(less_at(b@, a@, i as int));
                }
            }
            return if left[i] < right[i] {
                Place::Before
            } else {
                Place::After
            };
        }
        i = i + 1;
    }
    proof {
        lemma_not_both_ways(a@, b@);
        if i < right.len() {
            assert(less_at(a@, b@, i as int));
        } else if i < left.len() {
            assert(less_at(b@, a@, i as int));
        } else {
            assert(a@ =~= b@);
        }
    }
    if i < right.len() {
        Place::Before
    } else if i < left.len() {
        Place::After
    } else {
        Place::Same
    }
}

proof fn lemma_not_both_ways(a: Seq<char>, b: Seq<char>)
    ensures
        !(text_less(a, b) && text_less(b, a)),
        a == b ==> !text_less(a, b) && !text_less(b, a),
{
    lemma_less_irreflexive(a);
    if text_less(a, b) && text_less(b, a) {
        lemma_less_transitive(a, b, a);
    }
}

// ---------------------------------------------------------------------------
// A map with ordered keys
// ---------------------------------------------------------------------------

/// Whether the keys of `pairs` ascend, so that none occurs twice.
pub open spec fn ascending<V>(pairs: Seq<(String, V)>) -> bool {
    forall|i: int, j: int|
        0 <= i < j < pairs.len() ==> #[trigger] text_less(pairs[i].0@, pairs[j].0@)
}

/// Whether `pairs` has the key `key` at position `i`.
pub open spec fn key_at<V>(pairs: Seq<(String, V)>, key: Seq<char>, i: int) -> bool {
    0 <= i < pairs.len() && pairs[i].0@ == key
}

/// What `pairs` maps each of its keys to.
pub open spec fn pair_map<V>(pairs: Seq<(String, V)>) -> Map<Seq<char>, V> {
    Map::new(
        |key: Seq<char>| exists|i: int| key_at(pairs, key, i),
        |key: Seq<char>| pairs[choose|i: int| key_at(pairs, key, i)].1,
    )
}

/// A map from text to values, its keys in lexicographic order.
#[derive(Debug)]
pub struct StringMap<V> {
    entries: Vec<(String, V)>,
}

impl<V> View for StringMap<V> {
    type V = Map<Seq<char>, V>;

    open spec fn view(&self) -> Map<Seq<char>, V> {
        pair_map(self.pairs())
    }
}

proof fn lemma_key_once<V>(pairs: Seq<(String, V)>, key: Seq<char>, i: int)
    requires
        ascending(pairs),
        key_at(pairs, key, i),
    ensures
        pair_map(pairs).dom().contains(key),
        pair_map(pairs)[key] == pairs[i].1,
{
    let j = choose|j: int| key_at(pairs, key, j);
    if i < j {
        lemma_less_irreflexive(key);
        assert(text_less(pairs[i].0@, pairs[j].0@));
    } else if j < i {
        lemma_less_irreflexive(key);
        assert(text_less(pairs[j].0@, pairs[i].0@));
    }
}

proof fn lemma_key_missing<V>(pairs: Seq<(String, V)>, key: Seq<char>, p: int)
    requires
        ascending(pairs),
        0 <= p <= pairs.len(),
        forall|i: int| 0 <= i < p ==> #[trigger] text_less(pairs[i].0@, key),
        p == pairs.len() || text_less(key, pairs[p].0@),
    ensures
        !pair_map(pairs).dom().contains(key),
        forall|i: int| p <= i < pairs.len() ==> #[trigger] text_less(key, pairs[i].0@),
{
    lemma_less_irreflexive(key);
    assert forall|i: int| p <= i < pairs.len() implies #[trigger] text_less(key, pairs[i].0@) by {
        if i > p {
            assert(text_less(pairs[p].0@, pairs[i].0@));
            lemma_less_transitive(key, pairs[p].0@, pairs[i].0@);
        }
    }
    if pair_map(pairs).dom().contains(key) {
        let i = choose|i: int| key_at(pairs, key, i);
        if i < p {
            assert(text_less(pairs[i].0@, key));
        } else {
            assert(text_less(key, pairs[i].0@));
        }
    }
}

impl<V> StringMap<V> {
    /// The keys with their values, in key order.
    pub closed spec fn pairs(&self) -> Seq<(String, V)> {
        self.entries@
    }

    #[verifier::type_invariant]
    spec fn keys_ascend(&self) -> bool {
        ascending(self.entries@)
    }

    /// A map without keys.
    pub fn new() -> (r: Self)
        ensures
            r@ == Map::<Seq<char>, V>::empty(),
            r.pairs() == Seq::<(String, V)>::empty(),
    {
        let r = StringMap { entries: Vec::new() };
        proof {
            assert(r@ =~= Map::<Seq<char>, V>::empty());
        }
        r
    }

    /// How many keys there are.
    pub fn len(&self) -> (r: usize)
        ensures
            r == self.pairs().len(),
    {
        self.entries.len()
    }

    /// The key at position `i` in key order, with its value.
    pub fn nth(&self, i: usize) -> (r: (&str, &V))
        requires
            i < self.pairs().len(),
        ensures
            r.0@ == self.pairs()[i as int].0@,
            *r.1 == self.pairs()[i as int].1,
            self@.dom().contains(r.0@),
            self@[r.0@] == *r.1,
    {
        proof {
            use_type_invariant(self);
            lemma_key_once(self.entries@, self.entries@[i as int].0@, i as int);
            assert(key_at(self.entries@, self.entries@[i as int].0@, i as int));
        }
        (self.entries[i].0.as_str(), &self.entries[i].1)
    }

    /// Where `key` stands, or would have to stand.
    fn find(&self, key: &str) -> (r: (usize, bool))
        ensures
            r.0 <= self.entries@.len(),
            forall|i: int| 0 <= i < r.0 ==> #[trigger] text_less(self.entries@[i].0@, key@),
            r.1 ==> key_at(self.entries@, key@, r.0 as int),
            !r.1 ==> r.0 == self.entries@.len() || text_less(key@, self.entries@[r.0 as int].0@),
    {
        let mut i: usize = 0;
        while i < self.entries.len()
            invariant
                i <= self.entries@.len(),
                forall|j: int| 0 <= j < i ==> #[trigger] text_less(self.entries@[j].0@, key@),
            decreases self.entries@.len() - i,
        {
            match place(self.entries[i].0.as_str(), key) {
                Place::Before => {
                    i = i + 1;
                },
                Place::Same => {
                    return (i, true);
                },
                Place::After => {
                    return (i, false);
                },
            }
        }
        (i, false)
    }

    /// The value of `key`.
    pub fn get(&self, key: &str) -> (r: Option<&V>)
        ensures
            match r {
                Some(v) => self@.dom().contains(key@) && *v == self@[key@],
                None => !self@.dom().contains(key@),
            },
    {
        proof {
            use_type_invariant(self);
        }
        let (p, found) = self.find(key);
        if found {
            proof {
                lemma_key_once(self.entries@, key@, p as int);
            }
            Some(&self.entries[p].1)
        } else {
            proof {
                lemma_key_missing(self.entries@, key@, p as int);
            }
            None
        }
    }

    /// Map `key` to `value`, in place of what it was mapped to before.
    pub fn insert(&mut self, key: String, value: V)
        ensures
            final(self)@ == old(self)@.insert(key@, value),
    {
        proof {
            use_type_invariant(&*self);
        }
        let (p, found) = self.find(key.as_str());
        let ghost before = self.entries@;
        let mut entries: Vec<(String, V)> = Vec::new();
        std::mem::swap(&mut entries, &mut self.entries);
        if found {
            let _ = entries.remove(p);
            proof {
                lemma_remove(before, key@, p as int);
            }
        }
        let ghost between = entries@;
        proof {
            assert(p == between.len() || text_less(key@, between[p as int].0@)) by {
                if found && p < between.len() {
                    assert(text_less(before[p as int].0@, before[p + 1].0@));
                }
            }
            assert(forall|i: int| 0 <= i < p ==> between[i] == before[i]);
            lemma_key_missing(between, key@, p as int);
            lemma_insert(between, key, value, p as int);
            assert(pair_map(between).insert(key@, value) =~= pair_map(before).insert(key@, value));
        }
        entries.insert(p, (key, value));
        self.entries = entries;
    }

    /// Take `key` out of the map.
    pub fn remove(&mut self, key: &str) -> (r: Option<V>)
        ensures
            final(self)@ == old(self)@.remove(key@),
            match r {
                Some(v) => old(self)@.dom().contains(key@) && v == old(self)@[key@],
                None => !old(self)@.dom().contains(key@),
            },
    {
        proof {
            use_type_invariant(&*self);
        }
        let (p, found) = self.find(key);
        let ghost before = self.entries@;
        if found {
            proof {
                lemma_key_once(before, key@, p as int);
                lemma_remove(before, key@, p as int);
            }
            let mut entries: Vec<(String, V)> = Vec::new();
            std::mem::swap(&mut entries, &mut self.entries);
            let (_, value) = entries.remove(p);
            self.entries = entries;
            Some(value)
        } else {
            proof {
                lemma_key_missing(before, key@, p as int);
                assert(self@ =~= old(self)@.remove(key@));
            }
            None
        }
    }
}

impl Clone for StringMap<String> {
    fn clone(&self) -> (r: Self)
        ensures
            r.pairs() == self.pairs(),
    {
        proof {
            use_type_invariant(self);
        }
        let mut entries: Vec<(String, String)> = Vec::new();
        let mut i: usize = 0;
        while i < self.entries.len()
            invariant
                i <= self.entries@.len(),
                entries@ == self.entries@.take(i as int),
            decreases self.entries@.len() - i,
        {
            entries.push((self.entries[i].0.clone(), self.entries[i].1.clone()));
            i = i + 1;
            proof {
                assert(entries@ =~= self.entries@.take(i as int));
            }
        }
        proof {
            assert(entries@ =~= self.entries@);
        }
        StringMap { entries }
    }
}

proof fn lemma_remove<V>(pairs: Seq<(String, V)>, key: Seq<char>, p: int)
    requires
        ascending(pairs),
        key_at(pairs, key, p),
    ensures
        ascending(pairs.remove(p)),
        pair_map(pairs.remove(p)) == pair_map(pairs).remove(key),
{
    let rest = pairs.remove(p);
    assert forall|i: int, j: int| 0 <= i < j < rest.len() implies #[trigger] text_less(
        rest[i].0@,
        rest[j].0@,
    ) by {
        let i2 = if i < p {
            i
        } else {
            i + 1
        };
        let j2 = if j < p {
            j
        } else {
            j + 1
        };
        assert(rest[i] == pairs[i2]);
        assert(rest[j] == pairs[j2]);
        assert(text_less(pairs[i2].0@, pairs[j2].0@));
    }
    let want = pair_map(pairs).remove(key);
    assert forall|k: Seq<char>| #[trigger]
        pair_map(rest).dom().contains(k) == want.dom().contains(k) && (
        pair_map(rest).dom().contains(k) ==> pair_map(rest)[k] == want[k]) by {
        if pair_map(rest).dom().contains(k) {
            let i = choose|i: int| key_at(rest, k, i);
            let i2 = if i < p {
                i
            } else {
                i + 1
            };
            assert(key_at(pairs, k, i2));
            lemma_key_once(pairs, k, i2);
            lemma_key_once(rest, k, i);
            if k == key {
                lemma_less_irreflexive(k);
                if i2 < p {
                    assert(text_less(pairs[i2].0@, pairs[p].0@));
                } else {
                    assert(text_less(pairs[p].0@, pairs[i2].0@));
                }
            }
        } else if pair_map(pairs).dom().contains(k) && k != key {
            let i = choose|i: int| key_at(pairs, k, i);
            let i2 = if i < p {
                i
            } else {
                i - 1
            };
            assert(key_at(rest, k, i2));
        }
    }
    assert(pair_map(rest).dom() =~= want.dom());
    assert(pair_map(rest) =~= want);
}

proof fn lemma_insert<V>(pairs: Seq<(String, V)>, key: String, value: V, p: int)
    requires
        ascending(pairs),
        0 <= p <= pairs.len(),
        forall|i: int| 0 <= i < p ==> #[trigger] text_less(pairs[i].0@, key@),
        p == pairs.len() || text_less(key@, pairs[p].0@),
    ensures
        ascending(pairs.insert(p, (key, value))),
        pair_map(pairs.insert(p, (key, value))) == pair_map(pairs).insert(key@, value),
{
    lemma_key_missing(pairs, key@, p);
    let longer = pairs.insert(p, (key, value));
    assert forall|i: int, j: int| 0 <= i < j < longer.len() implies #[trigger] text_less(
        longer[i].0@,
        longer[j].0@,
    ) by {
        if i != p && j != p {
            let i2 = if i < p {
                i
            } else {
                i - 1
            };
            let j2 = if j < p {
                j
            } else {
                j - 1
            };
            assert(longer[i] == pairs[i2]);
            assert(longer[j] == pairs[j2]);
            assert(text_less(pairs[i2].0@, pairs[j2].0@));
        } else if j == p {
            assert(text_less(pairs[i].0@, key@));
        } else {
            assert(text_less(key@, pairs[j - 1].0@));
        }
    }
    let want = pair_map(pairs).insert(key@, value);
    assert forall|k: Seq<char>| #[trigger]
        pair_map(longer).dom().contains(k) == want.dom().contains(k) && (
        pair_map(longer).dom().contains(k) ==> pair_map(longer)[k] == want[k]) by {
        if k == key@ {
            assert(key_at(longer, k, p));
            lemma_key_once(longer, k, p);
        } else if pair_map(longer).dom().contains(k) {
            let i = choose|i: int| key_at(longer, k, i);
            let i2 = if i < p {
                i
            } else {
                i - 1
            };
            lemma_key_once(longer, k, i);
            assert(key_at(pairs, k, i2));
            lemma_key_once(pairs, k, i2);
        } else if pair_map(pairs).dom().contains(k) {
            let i = choose|i: int| key_at(pairs, k, i);
            let i2 = if i < p {
                i
            } else {
                i + 1
            };
            assert(key_at(longer, k, i2));
        }
    }
    assert(pair_map(longer).dom() =~= want.dom());
    assert(pair_map(longer) =~= want);
}

/// A text comes before what it begins, and where two texts differ first the
/// smaller character decides.
pub proof fn lemma_order_is_that_of_the_first_difference(
    same: Seq<char>,
    a: char,
    b: char,
    rest_a: Seq<char>,
    rest_b: Seq<char>,
)
    ensures
        text_less(same, same + seq![b] + rest_b),
        !text_less(same + seq![b] + rest_b, same),
        a < b ==> text_less(same + seq![a] + rest_a, same + seq![b] + rest_b),
        a < b ==> !text_less(same + seq![b] + rest_b, same + seq![a] + rest_a),
{
    let n = same.len() as int;
    let left = same + seq![a] + rest_a;
    let right = same + seq![b] + rest_b;
    assert(less_at(same, right, n));
    if text_less(right, same) {
        lemma_less_transitive(same, right, same);
        lemma_less_irreflexive(same);
    }
    if a < b {
        assert(left[n] == a && right[n] == b);
        assert(less_at(left, right, n));
        if text_less(right, left) {
            lemma_less_transitive(left, right, left);
            lemma_less_irreflexive(left);
        }
    }
}

} // verus!
