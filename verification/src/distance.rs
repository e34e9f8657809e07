//! The edit distance between texts.
use vstd::prelude::*;

use crate::text::chars_of;

verus! {

pub open spec fn least(a: nat, b: nat) -> nat {
    if a <= b {
        a
    } else {
        b
    }
}

/// The least number of insertions, deletions and replacements of a character
/// that turn `a` into `b`.
pub open spec fn edits(a: Seq<char>, b: Seq<char>) -> nat
    decreases a.len() + b.len(),
{
    if a.len() == 0 {
        b.len()
    } else if b.len() == 0 {
        a.len()
    } else {
        let cost: nat = if a.last() == b.last() {
            0
        } else {
            1
        };
        least(
            least(edits(a.drop_last(), b), edits(a, b.drop_last())) + 1,
            edits(a.drop_last(), b.drop_last()) + cost,
        )
    }
}

/// No more edits are needed than the longer text has characters.
pub proof fn law_edits_are_bounded(a: Seq<char>, b: Seq<char>)
    ensures
        edits(a, b) <= a.len() || edits(a, b) <= b.len(),
    decreases a.len() + b.len(),
{
    if a.len() > 0 && b.len() > 0 {
        law_edits_are_bounded(a.drop_last(), b.drop_last());
    }
}

/// No fewer edits are needed than the lengths differ by.
pub proof fn law_edits_cover_the_lengths(a: Seq<char>, b: Seq<char>)
    ensures
        a.len() <= b.len() + edits(a, b),
        b.len() <= a.len() + edits(a, b),
    decreases a.len() + b.len(),
{
    if a.len() > 0 && b.len() > 0 {
        law_edits_cover_the_lengths(a.drop_last(), b);
        law_edits_cover_the_lengths(a, b.drop_last());
        law_edits_cover_the_lengths(a.drop_last(), b.drop_last());
    }
}

/// The distance is the same in both directions.
pub proof fn law_edits_are_symmetric(a: Seq<char>, b: Seq<char>)
    ensures
        edits(a, b) == edits(b, a),
    decreases a.len() + b.len(),
{
    if a.len() > 0 && b.len() > 0 {
        law_edits_are_symmetric(a.drop_last(), b);
        law_edits_are_symmetric(a, b.drop_last());
        law_edits_are_symmetric(a.drop_last(), b.drop_last());
    }
}

/// Exactly equal texts have distance 0.
pub proof fn law_no_edits_between_equal_texts(a: Seq<char>, b: Seq<char>)
    ensures
        edits(a, b) == 0 <==> a == b,
    decreases a.len() + b.len(),
{
    if a.len() == 0 || b.len() == 0 {
        if a.len() == b.len() {
            assert(a =~= b);
        }
    } else {
        law_no_edits_between_equal_texts(a.drop_last(), b.drop_last());
        if a == b {
            assert(a.drop_last() == b.drop_last());
        }
        if edits(a, b) == 0 {
            assert(a =~= a.drop_last().push(a.last()));
            assert(b =~= b.drop_last().push(b.last()));
        }
    }
}

/// One edit leads from `a` to `b`: they have the same start and the same end, and
/// between those at most one character each.
pub open spec fn one_edit(a: Seq<char>, b: Seq<char>) -> bool {
    exists|start: Seq<char>, x: Seq<char>, y: Seq<char>, end: Seq<char>|
        {
            &&& x.len() <= 1
            &&& y.len() <= 1
            &&& a == #[trigger] (start + x + end)
            &&& b == #[trigger] (start + y + end)
        }
}

/// `n` edits, one after the other, lead from `a` to `b`.
pub open spec fn leads_to(a: Seq<char>, b: Seq<char>, n: nat) -> bool
    decreases n,
{
    if n == 0 {
        a == b
    } else {
        exists|m: Seq<char>| #[trigger] one_edit(a, m) && leads_to(m, b, (n - 1) as nat)
    }
}

proof fn lemma_one_edit(start: Seq<char>, x: Seq<char>, y: Seq<char>, end: Seq<char>)
    requires
        x.len() <= 1,
        y.len() <= 1,
    ensures
        one_edit(start + x + end, start + y + end),
{
}

proof fn lemma_same_is_one_edit(a: Seq<char>)
    ensures
        one_edit(a, a),
{
    let none = Seq::<char>::empty();
    assert(a + none + none =~= a);
    lemma_one_edit(a, none, none, none);
}

/// What one edit does, it does before the same character too.
proof fn lemma_one_edit_before(a: Seq<char>, b: Seq<char>, c: char)
    requires
        one_edit(a, b),
    ensures
        one_edit(a.push(c), b.push(c)),
{
    let (start, x, y, end) = choose|
        start: Seq<char>,
        x: Seq<char>,
        y: Seq<char>,
        end: Seq<char>,
    |
        {
            &&& x.len() <= 1
            &&& y.len() <= 1
            &&& a == #[trigger] (start + x + end)
            &&& b == #[trigger] (start + y + end)
        };
    assert(start + x + end.push(c) =~= a.push(c));
    assert(start + y + end.push(c) =~= b.push(c));
    lemma_one_edit(start, x, y, end.push(c));
}

proof fn lemma_leads_before(a: Seq<char>, b: Seq<char>, c: char, n: nat)
    requires
        leads_to(a, b, n),
    ensures
        leads_to(a.push(c), b.push(c), n),
    decreases n,
{
    if n > 0 {
        let m = choose|m: Seq<char>| #[trigger]
            one_edit(a, m) && leads_to(m, b, (n - 1) as nat);
        lemma_one_edit_before(a, m, c);
        lemma_leads_before(m, b, c, (n - 1) as nat);
    }
}

proof fn lemma_leads_further(a: Seq<char>, m: Seq<char>, b: Seq<char>, n: nat)
    requires
        leads_to(a, m, n),
        one_edit(m, b),
    ensures
        leads_to(a, b, n + 1),
    decreases n,
{
    if n > 0 {
        let k = choose|k: Seq<char>| #[trigger]
            one_edit(a, k) && leads_to(k, m, (n - 1) as nat);
        lemma_leads_further(k, m, b, (n - 1) as nat);
    } else {
        assert(leads_to(b, b, 0));
    }
}

proof fn lemma_leads_longer(a: Seq<char>, b: Seq<char>, n: nat, more: nat)
    requires
        leads_to(a, b, n),
        n <= more,
    ensures
        leads_to(a, b, more),
    decreases more,
{
    if n < more {
        lemma_leads_longer(a, b, n, (more - 1) as nat);
        lemma_same_is_one_edit(a);
    }
}

proof fn lemma_edits_lead(a: Seq<char>, b: Seq<char>)
    ensures
        leads_to(a, b, edits(a, b)),
    decreases a.len() + b.len(),
{
    let none = Seq::<char>::empty();
    if a.len() > 0 {
        let shorter = a.drop_last();
        assert(shorter + seq![a.last()] + none =~= a);
        assert(shorter + none + none =~= shorter);
        lemma_one_edit(shorter, seq![a.last()], none, none);
    }
    if b.len() > 0 {
        let shorter = b.drop_last();
        assert(shorter + seq![b.last()] + none =~= b);
        assert(shorter + none + none =~= shorter);
        lemma_one_edit(shorter, none, seq![b.last()], none);
    }
    if a.len() == 0 && b.len() == 0 {
        assert(a =~= b);
    } else if a.len() == 0 {
        lemma_edits_lead(a, b.drop_last());
        lemma_leads_further(a, b.drop_last(), b, edits(a, b.drop_last()));
    } else if b.len() == 0 {
        lemma_edits_lead(a.drop_last(), b);
    } else {
        let (x, y) = (a.last(), b.last());
        let (p, q) = (a.drop_last(), b.drop_last());
        lemma_edits_lead(p, b);
        lemma_edits_lead(a, q);
        lemma_edits_lead(p, q);
        lemma_leads_further(a, q, b, edits(a, q));
        lemma_leads_before(p, q, y, edits(p, q));
        assert(q.push(y) =~= b);
        if x == y {
            assert(p.push(y) =~= a);
        } else {
            assert(p + seq![x] + none =~= a);
            assert(p + seq![y] + none =~= p.push(y));
            lemma_one_edit(p, seq![x], seq![y], none);
        }
    }
}

/// One character behind a text changes the distance from it by one at most.
proof fn lemma_last_character(p: Seq<char>, c: char, b: Seq<char>)
    ensures
        edits(p.push(c), b) <= edits(p, b) + 1,
        edits(p, b) <= edits(p.push(c), b) + 1,
    decreases b.len(),
{
    assert(p.push(c).drop_last() =~= p);
    if b.len() > 0 {
        lemma_last_character(p, c, b.drop_last());
    }
}

proof fn lemma_other_last_character(p: Seq<char>, c: char, d: char, b: Seq<char>)
    ensures
        edits(p.push(c), b) <= edits(p.push(d), b) + 1,
    decreases b.len(),
{
    assert(p.push(c).drop_last() =~= p);
    assert(p.push(d).drop_last() =~= p);
    if b.len() > 0 {
        lemma_other_last_character(p, c, d, b.drop_last());
    }
}

proof fn lemma_edit_counts_once(
    start: Seq<char>,
    x: Seq<char>,
    y: Seq<char>,
    end: Seq<char>,
    b: Seq<char>,
)
    requires
        x.len() <= 1,
        y.len() <= 1,
    ensures
        edits(start + x + end, b) <= edits(start + y + end, b) + 1,
    decreases end.len(), b.len(),
{
    let (a, m) = (start + x + end, start + y + end);
    if end.len() == 0 {
        if x.len() == 1 {
            assert(a =~= start.push(x[0]));
        } else {
            assert(a =~= start);
        }
        if y.len() == 1 {
            assert(m =~= start.push(y[0]));
        } else {
            assert(m =~= start);
        }
        if x.len() == 1 && y.len() == 1 {
            lemma_other_last_character(start, x[0], y[0], b);
        } else if x.len() == 1 {
            lemma_last_character(start, x[0], b);
        } else if y.len() == 1 {
            lemma_last_character(start, y[0], b);
        }
    } else {
        let rest = end.drop_last();
        assert(a.drop_last() =~= start + x + rest);
        assert(m.drop_last() =~= start + y + rest);
        assert(a.last() == end.last() && m.last() == end.last());
        if b.len() > 0 {
            lemma_edit_counts_once(start, x, y, rest, b);
            lemma_edit_counts_once(start, x, y, end, b.drop_last());
            lemma_edit_counts_once(start, x, y, rest, b.drop_last());
        }
    }
}

/// The distance is the length of a shortest way of edits: that many lead from one text
/// to the other, and so do more, but no fewer.
pub proof fn law_distance_is_the_shortest_way(a: Seq<char>, b: Seq<char>, n: nat)
    ensures
        leads_to(a, b, n) <==> edits(a, b) <= n,
    decreases n,
{
    if edits(a, b) <= n {
        lemma_edits_lead(a, b);
        lemma_leads_longer(a, b, edits(a, b), n);
    }
    if leads_to(a, b, n) {
        if n == 0 {
            law_no_edits_between_equal_texts(a, b);
        } else {
            let m = choose|m: Seq<char>| #[trigger]
                one_edit(a, m) && leads_to(m, b, (n - 1) as nat);
            law_distance_is_the_shortest_way(m, b, (n - 1) as nat);
            let (start, x, y, end) = choose|
                start: Seq<char>,
                x: Seq<char>,
                y: Seq<char>,
                end: Seq<char>,
            |
                {
                    &&& x.len() <= 1
                    &&& y.len() <= 1
                    &&& a == #[trigger] (start + x + end)
                    &&& m == #[trigger] (start + y + end)
                };
            lemma_edit_counts_once(start, x, y, end, b);
        }
    }
}

proof fn lemma_edits_step(a: Seq<char>, b: Seq<char>, i: int, j: int)
    requires
        0 < i <= a.len(),
        0 < j <= b.len(),
    ensures
        edits(a.take(i), b.take(j)) == least(
            least(edits(a.take(i - 1), b.take(j)), edits(a.take(i), b.take(j - 1))) + 1,
            edits(a.take(i - 1), b.take(j - 1)) + (if a[i - 1] == b[j - 1] {
                0nat
            } else {
                1nat
            }),
        ),
{
    assert(a.take(i).drop_last() =~= a.take(i - 1));
    assert(b.take(j).drop_last() =~= b.take(j - 1));
}

/// The edit distance between two texts.
pub fn levenshtein(a: &str, b: &str) -> (r: usize)
    ensures
        r == edits(a@, b@),
{
    let a_chars = chars_of(a);
    let b_chars = chars_of(b);
    let m: usize = a_chars.len();
    let n: usize = b_chars.len();
    if m == 0 {
        return n;
    }
    if n == 0 {
        return m;
    }
    // The distances of a start of `a` from all starts of `b`.
    let mut prev: Vec<usize> = Vec::new();
    prev.push(0);
    let mut k: usize = 0;
    while k < n
        invariant
            k <= n,
            n == b@.len(),
            prev@.len() == k + 1,
            forall|j: int| 0 <= j <= k ==> (#[trigger] prev@[j]) == j,
        decreases n - k,
    {
        prev.push(k + 1);
        k += 1;
    }
    assert(prev.len() == n + 1);
    assert forall|j: int| 0 <= j <= n implies (#[trigger] prev@[j]) == edits(
        a@.take(0),
        b@.take(j),
    ) by {
        assert(b@.take(j).len() == j);
    }
    let mut i: usize = 0;
    while i < m
        invariant
            i <= m,
            a_chars@ == a@,
            b_chars@ == b@,
            m == a@.len(),
            n == b@.len(),
            n < usize::MAX,
            prev@.len() == n + 1,
            forall|j: int|
                0 <= j <= n ==> (#[trigger] prev@[j]) == edits(a@.take(i as int), b@.take(j)),
        decreases m - i,
    {
        let mut curr: Vec<usize> = Vec::new();
        curr.push(i + 1);
        proof {
            assert(a@.take(i + 1).len() == i + 1);
            assert(b@.take(0).len() == 0);
        }
        let mut j: usize = 0;
        while j < n
            invariant
                i < m,
                j <= n,
                a_chars@ == a@,
                b_chars@ == b@,
                m == a@.len(),
                n == b@.len(),
                n < usize::MAX,
                prev@.len() == n + 1,
                curr@.len() == j + 1,
                forall|k: int|
                    0 <= k <= n ==> (#[trigger] prev@[k]) == edits(a@.take(i as int), b@.take(k)),
                forall|k: int|
                    0 <= k <= j ==> (#[trigger] curr@[k]) == edits(a@.take(i + 1), b@.take(k)),
            decreases n - j,
        {
            let cost: usize = if a_chars[i] == b_chars[j] {
                0
            } else {
                1
            };
            let above: usize = prev[j + 1];
            let left: usize = curr[j];
            let corner: usize = prev[j];
            proof {
                lemma_edits_step(a@, b@, i + 1, j + 1);
                law_edits_are_bounded(a@.take(i as int), b@.take(j + 1));
                law_edits_are_bounded(a@.take(i as int), b@.take(j as int));
            }
            let best: usize = if above <= left {
                above
            } else {
                left
            };
            let value: usize = if best + 1 <= corner + cost {
                best + 1
            } else {
                corner + cost
            };
            curr.push(value);
            j += 1;
        }
        prev = curr;
        i += 1;
    }
    proof {
        assert(a@.take(m as int) =~= a@);
        assert(b@.take(n as int) =~= b@);
    }
    prev[n]
}

} // verus!
