//! The order of texts, and sorting.
use vstd::prelude::*;

use crate::text;
use crate::text::chars_of;

verus! {

/// `a` comes before `b` or is the same: the first difference decides, by
/// code point; a start comes before the whole.
pub open spec fn before_or_same(a: Seq<char>, b: Seq<char>) -> bool
    decreases a.len(),
{
    if a.len() == 0 {
        true
    } else if b.len() == 0 {
        false
    } else if a[0] == b[0] {
        before_or_same(a.skip(1), b.skip(1))
    } else {
        a[0] < b[0]
    }
}

/// Each text comes before or is the same as all that follow.
pub open spec fn in_order(texts: Seq<Seq<char>>) -> bool {
    forall|i: int, j: int|
        0 <= i < j < texts.len() ==> before_or_same(#[trigger] texts[i], #[trigger] texts[j])
}

proof fn lemma_total(a: Seq<char>, b: Seq<char>)
    ensures
        before_or_same(a, b) || before_or_same(b, a),
    decreases a.len(),
{
    if a.len() > 0 && b.len() > 0 && a[0] == b[0] {
        lemma_total(a.skip(1), b.skip(1));
    }
}

proof fn lemma_transitive(a: Seq<char>, b: Seq<char>, c: Seq<char>)
    requires
        before_or_same(a, b),
        before_or_same(b, c),
    ensures
        before_or_same(a, c),
    decreases a.len(),
{
    if a.len() > 0 && a[0] == b[0] && b[0] == c[0] {
        lemma_transitive(a.skip(1), b.skip(1), c.skip(1));
    }
}

/// Two texts that each come before or are the same as the other are the same.
pub proof fn law_order_is_antisymmetric(a: Seq<char>, b: Seq<char>)
    requires
        before_or_same(a, b),
        before_or_same(b, a),
    ensures
        a == b,
    decreases a.len(),
{
    if a.len() == 0 {
        assert(a =~= b);
    } else {
        law_order_is_antisymmetric(a.skip(1), b.skip(1));
        assert(a =~= seq![a[0]] + a.skip(1));
        assert(b =~= seq![b[0]] + b.skip(1));
    }
}

/// Whether a text comes before another or is the same.
pub fn is_before_or_same(a: &str, b: &str) -> (r: bool)
    ensures
        r == before_or_same(a@, b@),
{
    let x = chars_of(a);
    let y = chars_of(b);
    let mut i: usize = 0;
    proof {
        assert(a@.skip(0) =~= a@);
        assert(b@.skip(0) =~= b@);
    }
    while i < x.len() && i < y.len() && x[i] == y[i]
        invariant
            i <= x.len(),
            i <= y.len(),
            x@ == a@,
            y@ == b@,
            before_or_same(a@, b@) == before_or_same(a@.skip(i as int), b@.skip(i as int)),
        decreases x.len() - i,
    {
        proof {
            assert(a@.skip(i as int).skip(1) =~= a@.skip(i + 1));
            assert(b@.skip(i as int).skip(1) =~= b@.skip(i + 1));
        }
        i += 1;
    }
    if i == x.len() {
        true
    } else if i == y.len() {
        false
    } else {
        x[i] < y[i]
    }
}

/// Puts a text into its place among texts that are in order.
fn insert_in_order(list: &mut Vec<String>, item: String)
    requires
        in_order(text::views(old(list)@)),
    ensures
        in_order(text::views(final(list)@)),
        text::views(final(list)@).to_multiset() == text::views(old(list)@).to_multiset().insert(
            item@,
        ),
{
    let ghost start = text::views(list@);
    let mut i: usize = 0;
    while i < list.len() && is_before_or_same(list[i].as_str(), item.as_str())
        invariant
            i <= list.len(),
            start == text::views(list@),
            forall|j: int| 0 <= j < i ==> before_or_same(#[trigger] start[j], item@),
        decreases list.len() - i,
    {
        proof {
            assert(start[i as int] == list@[i as int]@);
        }
        i += 1;
    }
    proof {
        if i < list@.len() {
            assert(start[i as int] == list@[i as int]@);
            lemma_total(item@, start[i as int]);
            assert forall|j: int| i <= j < start.len() implies before_or_same(
                item@,
                #[trigger] start[j],
            ) by {
                if j > i {
                    lemma_transitive(item@, start[i as int], start[j]);
                }
            }
        }
    }
    list.insert(i, item);
    proof {
        let end = text::views(list@);
        assert(end =~= start.insert(i as int, item@));
        start.insert_ensures(i as int, item@);
        vstd::seq_lib::to_multiset_insert(start, i as int, item@);
        assert forall|a: int, b: int| 0 <= a < b < end.len() implies before_or_same(
            #[trigger] end[a],
            #[trigger] end[b],
        ) by {
            if b < i {
                assert(end[a] == start[a] && end[b] == start[b]);
            } else if b == i {
                assert(end[a] == start[a]);
            } else if a < i {
                assert(end[a] == start[a] && end[b] == start[b - 1]);
            } else if a == i {
                assert(end[b] == start[b - 1]);
            } else {
                assert(end[a] == start[a - 1] && end[b] == start[b - 1]);
            }
        }
    }
}

/// Sorts texts.
pub fn sort_texts(texts: Vec<String>) -> (r: Vec<String>)
    ensures
        in_order(text::views(r@)),
        text::views(r@).to_multiset() == text::views(texts@).to_multiset(),
{
    let ghost all = text::views(texts@);
    let mut r: Vec<String> = Vec::new();
    let mut i: usize = 0;
    proof {
        assert(text::views(r@) =~= all.take(0));
    }
    while i < texts.len()
        invariant
            i <= texts.len(),
            all == text::views(texts@),
            in_order(text::views(r@)),
            text::views(r@).to_multiset() == all.take(i as int).to_multiset(),
        decreases texts.len() - i,
    {
        proof {
            assert(all.take(i + 1) =~= all.take(i as int).push(texts@[i as int]@));
            vstd::seq_lib::to_multiset_build(all.take(i as int), texts@[i as int]@);
        }
        insert_in_order(&mut r, texts[i].clone());
        i += 1;
    }
    proof {
        assert(all.take(i as int) =~= all);
    }
    r
}

/// A text comes before another exactly where it is the start of it, or where the first
/// character in which they differ is the smaller one.
pub proof fn law_first_difference_decides(a: Seq<char>, b: Seq<char>, at: int)
    requires
        0 <= at <= a.len(),
        at <= b.len(),
        forall|i: int| 0 <= i < at ==> a[i] == b[i],
        at == a.len() || at == b.len() || a[at] != b[at],
    ensures
        before_or_same(a, b) <==> at == a.len() || (at < b.len() && a[at] < b[at]),
    decreases at,
{
    if at > 0 {
        let x = a.skip(1);
        let y = b.skip(1);
        assert forall|i: int| 0 <= i < at - 1 implies x[i] == y[i] by {
            assert(x[i] == a[i + 1] && y[i] == b[i + 1]);
        }
        law_first_difference_decides(x, y, at - 1);
        assert(a[0] == b[0]);
    }
}

/// Of two texts one comes before the other or is the same, and the order goes on from
/// one text to the next.
pub proof fn law_order_is_total(a: Seq<char>, b: Seq<char>, c: Seq<char>)
    ensures
        before_or_same(a, b) || before_or_same(b, a),
        before_or_same(a, b) && before_or_same(b, c) ==> before_or_same(a, c),
{
    lemma_total(a, b);
    if before_or_same(a, b) && before_or_same(b, c) {
        lemma_transitive(a, b, c);
    }
}

} // verus!
