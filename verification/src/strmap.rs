//! A map from texts to values that remembers the order in which its keys came.
use vstd::prelude::*;

use crate::text::same;

verus! {

/// Keys with their values. A key stands at most once, and keeps the place at
/// which it was first put in.
#[derive(Debug, Clone, PartialEq, Eq)]
pub struct StrMap<V> {
    pub entries: Vec<(String, V)>,
}

/// The first position at which `key` stands, or the length where it does not.
pub open spec fn position<V>(pairs: Seq<(Seq<char>, V)>, key: Seq<char>) -> nat
    decreases pairs.len(),
{
    if pairs.len() == 0 || pairs[0].0 == key {
        0
    } else {
        1 + position(pairs.skip(1), key)
    }
}

/// The value that stands under `key`.
pub open spec fn lookup<V>(pairs: Seq<(Seq<char>, V)>, key: Seq<char>) -> Option<V> {
    let i = position(pairs, key) as int;
    if i < pairs.len() {
        Some(pairs[i].1)
    } else {
        None
    }
}

/// The pairs with `value` under `key`: in place of the value that stood there,
/// or at the end.
pub open spec fn put<V>(pairs: Seq<(Seq<char>, V)>, key: Seq<char>, value: V) -> Seq<
    (Seq<char>, V),
> {
    let i = position(pairs, key) as int;
    if i < pairs.len() {
        pairs.update(i, (key, value))
    } else {
        pairs.push((key, value))
    }
}

/// No key stands twice.
pub open spec fn distinct_keys<V>(pairs: Seq<(Seq<char>, V)>) -> bool {
    forall|i: int, j: int|
        0 <= i < j < pairs.len() ==> #[trigger] pairs[i].0 != #[trigger] pairs[j].0
}

/// Pairs of a text and a text, as characters.
pub open spec fn text_pairs(pairs: Seq<(Seq<char>, String)>) -> Seq<(Seq<char>, Seq<char>)> {
    Seq::new(pairs.len(), |i: int| (pairs[i].0, pairs[i].1@))
}

impl<V> View for StrMap<V> {
    type V = Seq<(Seq<char>, V)>;

    open spec fn view(&self) -> Seq<(Seq<char>, V)> {
        Seq::new(self.entries@.len(), |i: int| (self.entries@[i].0@, self.entries@[i].1))
    }
}

pub proof fn lemma_position<V>(pairs: Seq<(Seq<char>, V)>, key: Seq<char>, i: nat)
    requires
        i <= pairs.len(),
        forall|j: int| 0 <= j < i ==> (#[trigger] pairs[j]).0 != key,
        i == pairs.len() || pairs[i as int].0 == key,
    ensures
        position(pairs, key) == i,
    decreases pairs.len(),
{
    if i > 0 {
        assert(pairs[0].0 != key);
        let rest = pairs.skip(1);
        assert forall|j: int| 0 <= j < i - 1 implies (#[trigger] rest[j]).0 != key by {
            assert(rest[j] == pairs[j + 1]);
        }
        lemma_position(rest, key, (i - 1) as nat);
    }
}

pub proof fn lemma_position_is_first<V>(pairs: Seq<(Seq<char>, V)>, key: Seq<char>)
    ensures
        position(pairs, key) <= pairs.len(),
        position(pairs, key) < pairs.len() ==> pairs[position(pairs, key) as int].0 == key,
        forall|j: int| 0 <= j < position(pairs, key) ==> (#[trigger] pairs[j]).0 != key,
    decreases pairs.len(),
{
    if pairs.len() > 0 && pairs[0].0 != key {
        let rest = pairs.skip(1);
        lemma_position_is_first(rest, key);
        assert forall|j: int| 0 <= j < position(pairs, key) implies (#[trigger] pairs[j]).0
            != key by {
            if j > 0 {
                assert(rest[j - 1] == pairs[j]);
            }
        }
    }
}

/// Turning the values into characters leaves the keys in their places.
pub proof fn lemma_text_pairs_position(pairs: Seq<(Seq<char>, String)>, key: Seq<char>)
    ensures
        position(text_pairs(pairs), key) == position(pairs, key),
{
    let texts = text_pairs(pairs);
    lemma_position_is_first(pairs, key);
    assert forall|j: int| 0 <= j < position(pairs, key) implies (#[trigger] texts[j]).0
        != key by {
        assert(texts[j].0 == pairs[j].0);
    }
    lemma_position(texts, key, position(pairs, key));
}

/// Turning the values into characters and putting a value in may be done in
/// either order.
pub proof fn lemma_text_pairs_put(pairs: Seq<(Seq<char>, String)>, key: Seq<char>, value: String)
    ensures
        text_pairs(put(pairs, key, value)) == put(text_pairs(pairs), key, value@),
{
    let texts = text_pairs(pairs);
    lemma_text_pairs_position(pairs, key);
    assert(text_pairs(put(pairs, key, value)) =~= put(texts, key, value@));
}

impl<V> StrMap<V> {
    /// Every key stands once.
    pub open spec fn wf(&self) -> bool {
        distinct_keys(self@)
    }

    pub fn new() -> (r: Self)
        ensures
            r.wf(),
            r@ == Seq::<(Seq<char>, V)>::empty(),
    {
        let r = StrMap { entries: Vec::new() };
        proof {
            assert(r@ =~= Seq::<(Seq<char>, V)>::empty());
        }
        r
    }

    /// The position of a key, or the number of entries.
    fn find(&self, key: &str) -> (i: usize)
        ensures
            i == position(self@, key@),
            i <= self.entries.len(),
    {
        let mut i: usize = 0;
        while i < self.entries.len()
            invariant
                i <= self.entries.len(),
                forall|j: int| 0 <= j < i ==> (#[trigger] self@[j]).0 != key@,
            decreases self.entries.len() - i,
        {
            if same(self.entries[i].0.as_str(), key) {
                proof {
                    assert(self@[i as int].0 == key@);
                    lemma_position(self@, key@, i as nat);
                }
                return i;
            }
            proof {
                assert(self@[i as int].0 != key@);
            }
            i += 1;
        }
        proof {
            lemma_position(self@, key@, i as nat);
        }
        i
    }

    /// Puts `value` under `key`, in place of what stood there.
    pub fn insert(&mut self, key: String, value: V)
        ensures
            final(self)@ == put(old(self)@, key@, value),
            old(self).wf() ==> final(self).wf(),
    {
        let i: usize = self.find(key.as_str());
        let ghost before = self@;
        proof {
            lemma_position_is_first(before, key@);
        }
        if i < self.entries.len() {
            self.entries.set(i, (key, value));
        } else {
            self.entries.push((key, value));
        }
        proof {
            assert(self@ =~= put(before, key@, value));
            if distinct_keys(before) {
                assert forall|a: int, b: int| 0 <= a < b < self@.len() implies #[trigger] self@[a].0
                    != #[trigger] self@[b].0 by {
                    if a < before.len() && b < before.len() {
                        assert(before[a].0 != before[b].0);
                    }
                }
            }
        }
    }

    /// The value under `key`.
    pub fn get(&self, key: &str) -> (r: Option<&V>)
        ensures
            match r {
                Some(v) => lookup(self@, key@) == Some(*v),
                None => lookup(self@, key@) is None,
            },
    {
        let i: usize = self.find(key);
        if i < self.entries.len() {
            Some(&self.entries[i].1)
        } else {
            None
        }
    }

    pub fn contains_key(&self, key: &str) -> (r: bool)
        ensures
            r == (lookup(self@, key@) is Some),
    {
        self.get(key).is_some()
    }

    /// The number of entries.
    pub fn len(&self) -> (r: usize)
        ensures
            r == self@.len(),
    {
        self.entries.len()
    }

    pub fn is_empty(&self) -> (r: bool)
        ensures
            r == (self@.len() == 0),
    {
        self.entries.len() == 0
    }
}

/// A copy of a map from texts to texts.
pub fn copy_texts(map: &StrMap<String>) -> (r: StrMap<String>)
    ensures
        r@ == map@,
        map.wf() ==> r.wf(),
{
    let mut entries: Vec<(String, String)> = Vec::new();
    let mut i: usize = 0;
    while i < map.entries.len()
        invariant
            i <= map.entries.len(),
            entries@ == map.entries@.take(i as int),
        decreases map.entries.len() - i,
    {
        let entry = &map.entries[i];
        entries.push((entry.0.clone(), entry.1.clone()));
        i += 1;
    }
    let r = StrMap { entries };
    proof {
        assert(map.entries@.take(i as int) =~= map.entries@);
        assert(r@ =~= map@);
    }
    r
}

// ---------------------------------------------------------------------------
// Laws
// ---------------------------------------------------------------------------

/// A value that was put under a key is found there, and nothing else changes.
pub proof fn law_get_after_put<V>(
    pairs: Seq<(Seq<char>, V)>,
    key: Seq<char>,
    value: V,
    other: Seq<char>,
)
    ensures
        lookup(put(pairs, key, value), other) == (if other == key {
            Some(value)
        } else {
            lookup(pairs, other)
        }),
{
    let after = put(pairs, key, value);
    lemma_position_is_first(pairs, key);
    lemma_position_is_first(pairs, other);
    let i = position(pairs, key) as int;
    let k = position(pairs, other) as int;
    if other == key {
        assert forall|j: int| 0 <= j < i implies (#[trigger] after[j]).0 != other by {
            assert(after[j] == pairs[j]);
        }
        lemma_position(after, other, i as nat);
    } else if k < pairs.len() {
        assert forall|j: int| 0 <= j < k implies (#[trigger] after[j]).0 != other by {
            if j != i {
                assert(after[j] == pairs[j]);
            }
        }
        lemma_position(after, other, k as nat);
    } else {
        assert forall|j: int| 0 <= j < after.len() implies (#[trigger] after[j]).0 != other by {
            if j != i {
                assert(after[j] == pairs[j]);
            }
        }
        lemma_position(after, other, after.len());
    }
}

/// The first pair with a key decides what stands under it.
pub proof fn law_first_pair_decides<V>(pairs: Seq<(Seq<char>, V)>, key: Seq<char>, i: int)
    requires
        0 <= i <= pairs.len(),
        forall|j: int| 0 <= j < i ==> (#[trigger] pairs[j]).0 != key,
        i < pairs.len() ==> pairs[i].0 == key,
    ensures
        lookup(pairs, key) == (if i < pairs.len() {
            Some(pairs[i].1)
        } else {
            None
        }),
{
    lemma_position(pairs, key, i as nat);
}

/// A new key goes to the end, and a known one keeps its place; the other pairs stay
/// where they are.
pub proof fn law_pairs_keep_their_places<V>(
    pairs: Seq<(Seq<char>, V)>,
    key: Seq<char>,
    value: V,
    i: int,
)
    requires
        0 <= i <= pairs.len(),
        forall|j: int| 0 <= j < i ==> (#[trigger] pairs[j]).0 != key,
        i < pairs.len() ==> pairs[i].0 == key,
    ensures
        put(pairs, key, value).len() == (if i < pairs.len() {
            pairs.len()
        } else {
            pairs.len() + 1
        }),
        put(pairs, key, value)[i] == (key, value),
        forall|j: int|
            0 <= j < pairs.len() && j != i ==> #[trigger] put(pairs, key, value)[j] == pairs[j],
{
    lemma_position(pairs, key, i as nat);
}

/// Of two lists the first one decides on the keys that it has.
pub proof fn law_first_list_decides<V>(
    a: Seq<(Seq<char>, V)>,
    b: Seq<(Seq<char>, V)>,
    key: Seq<char>,
)
    ensures
        lookup(a + b, key) == (if lookup(a, key) is Some {
            lookup(a, key)
        } else {
            lookup(b, key)
        }),
{
    lemma_position_is_first(a, key);
    lemma_position_is_first(b, key);
    let i = position(a, key);
    let all = a + b;
    if i < a.len() {
        assert forall|j: int| 0 <= j < i implies (#[trigger] all[j]).0 != key by {
            assert(all[j] == a[j]);
        }
        lemma_position(all, key, i);
    } else {
        let k = position(b, key);
        assert forall|j: int| 0 <= j < a.len() + k implies (#[trigger] all[j]).0 != key by {
            if j < a.len() {
                assert(all[j] == a[j]);
            } else {
                assert(all[j] == b[j - a.len()]);
            }
        }
        lemma_position(all, key, a.len() + k);
    }
}

} // verus!
