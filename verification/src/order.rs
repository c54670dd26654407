//! The order of strings, and sorting.
use vstd::prelude::*;
use crate::text::chars_of;
use crate::text::views;

verus! {

/// Lexicographic order by character code, from position `i` on.
pub open spec fn le_from(a: Seq<char>, b: Seq<char>, i: int) -> bool
    decreases a.len() - i,
{
    if i < 0 || i >= a.len() {
        true
    } else if i >= b.len() {
        false
    } else if a[i] != b[i] {
        a[i] < b[i]
    } else {
        le_from(a, b, i + 1)
    }
}

/// Lexicographic order by character code, which is also the order of the
/// encoded bytes.
pub open spec fn le(a: Seq<char>, b: Seq<char>) -> bool {
    le_from(a, b, 0)
}

/// The order is total.
pub proof fn lemma_le_total(a: Seq<char>, b: Seq<char>, i: int)
    requires
        0 <= i,
    ensures
        le_from(a, b, i) || le_from(b, a, i),
    decreases a.len() - i,
{
    if i < a.len() && i < b.len() && a[i] == b[i] {
        lemma_le_total(a, b, i + 1);
    }
}

/// The order is transitive.
pub proof fn lemma_le_trans(a: Seq<char>, b: Seq<char>, c: Seq<char>, i: int)
    requires
        0 <= i,
        le_from(a, b, i),
        le_from(b, c, i),
    ensures
        le_from(a, c, i),
    decreases a.len() - i,
{
    if i < a.len() && i < b.len() && i < c.len() && a[i] == b[i] && b[i] == c[i] {
        lemma_le_trans(a, b, c, i + 1);
    }
}

/// The order is antisymmetric.
pub proof fn lemma_le_antisym(a: Seq<char>, b: Seq<char>, i: int)
    requires
        0 <= i <= a.len(),
        i <= b.len(),
        forall|j: int| 0 <= j < i ==> a[j] == b[j],
        le_from(a, b, i),
        le_from(b, a, i),
    ensures
        a == b,
    decreases a.len() - i,
{
    if i < a.len() && i < b.len() {
        lemma_le_antisym(a, b, i + 1);
    } else {
        assert(a =~= b);
    }
}

/// Decides [`le`].
pub fn le_chars(a: &Vec<char>, b: &Vec<char>) -> (r: bool)
    ensures
        r == le(a@, b@),
{
    let mut i: usize = 0;
    while i < a.len()
        invariant
            i <= a@.len(),
            le(a@, b@) == le_from(a@, b@, i as int),
        decreases a@.len() - i,
    {
        if i >= b.len() {
            return false;
        }
        if a[i] != b[i] {
            return a[i] < b[i];
        }
        i += 1;
    }
    true
}

/// Decides [`le`] on strings.
pub fn le_strings(a: &str, b: &str) -> (r: bool)
    ensures
        r == le(a@, b@),
{
    let x = chars_of(a);
    let y = chars_of(b);
    le_chars(&x, &y)
}

/// Whether a sequence of strings is in order.
pub open spec fn in_order(s: Seq<Seq<char>>) -> bool {
    forall|i: int, j: int| 0 <= i <= j < s.len() ==> le(#[trigger] s[i], #[trigger] s[j])
}

/// Two sequences in order with the same elements are equal: being in order
/// and a rearrangement fixes the result of a sort.
pub proof fn lemma_sorted_unique(a: Seq<Seq<char>>, b: Seq<Seq<char>>)
    requires
        in_order(a),
        in_order(b),
        a.to_multiset() == b.to_multiset(),
    ensures
        a == b,
    decreases a.len(),
{
    a.to_multiset_ensures();
    b.to_multiset_ensures();
    assert(a.len() == b.len());
    if a.len() == 0 {
        assert(a =~= b);
    } else {
        let x = a.last();
        let y = b.last();
        assert(a.contains(x)) by {
            assert(a[a.len() - 1] == x);
        }
        assert(b.contains(y)) by {
            assert(b[b.len() - 1] == y);
        }
        assert(a.to_multiset().count(x) > 0);
        assert(b.to_multiset().count(y) > 0);
        assert(b.contains(x));
        assert(a.contains(y));
        let i = choose|i: int| 0 <= i < b.len() && b[i] == x;
        let j = choose|j: int| 0 <= j < a.len() && a[j] == y;
        assert(le(b[i], b[b.len() - 1]));
        assert(le(a[j], a[a.len() - 1]));
        lemma_le_antisym(x, y, 0);
        let a2 = a.drop_last();
        let b2 = b.drop_last();
        assert(a =~= a2.push(x));
        assert(b =~= b2.push(x));
        a2.to_multiset_ensures();
        b2.to_multiset_ensures();
        assert(a.to_multiset() =~= a2.to_multiset().insert(x));
        assert(b.to_multiset() =~= b2.to_multiset().insert(x));
        assert(a2.to_multiset() =~= a.to_multiset().remove(x));
        assert(b2.to_multiset() =~= b.to_multiset().remove(x));
        assert forall|p: int, q: int| 0 <= p <= q < a2.len() implies le(
            #[trigger] a2[p],
            #[trigger] a2[q],
        ) by {
            assert(le(a[p], a[q]));
        }
        assert forall|p: int, q: int| 0 <= p <= q < b2.len() implies le(
            #[trigger] b2[p],
            #[trigger] b2[q],
        ) by {
            assert(le(b[p], b[q]));
        }
        lemma_sorted_unique(a2, b2);
    }
}

/// Sorts strings.
pub fn sort_strings(v: Vec<String>) -> (r: Vec<String>)
    ensures
        in_order(views(r@)),
        views(r@).to_multiset() == views(v@).to_multiset(),
        r@.len() == v@.len(),
{
    let mut r: Vec<String> = Vec::new();
    let mut i: usize = 0;
    assert(views(r@) =~= views(v@.take(0)));
    while i < v.len()
        invariant
            i <= v@.len(),
            r@.len() == i,
            in_order(views(r@)),
            views(r@).to_multiset() == views(v@.take(i as int)).to_multiset(),
        decreases v@.len() - i,
    {
        let x = v[i].clone();
        let mut k: usize = 0;
        while k < r.len() && le_strings(r[k].as_str(), x.as_str())
            invariant
                k <= r@.len(),
                forall|j: int| 0 <= j < k ==> le(#[trigger] views(r@)[j], x@),
            decreases r@.len() - k,
        {
            assert(views(r@)[k as int] == r@[k as int]@);
            k += 1;
        }
        let ghost old_r = views(r@);
        let ghost old_v = views(v@.take(i as int));
        r.insert(k, x);
        proof {
            let new_r = views(r@);
            assert(new_r =~= old_r.insert(k as int, x@));
            assert forall|p: int, q: int| 0 <= p <= q < new_r.len() implies le(
                #[trigger] new_r[p],
                #[trigger] new_r[q],
            ) by {
                lemma_le_total(x@, x@, 0);
                if p < k {
                    if q < k {
                        assert(le(old_r[p], old_r[q]));
                    } else if q == k {
                        assert(le(old_r[p], x@));
                    } else {
                        assert(le(old_r[p], old_r[q - 1]));
                    }
                } else if p == k {
                    if q > k {
                        lemma_le_total(old_r[k as int], x@, 0);
                        assert(le(old_r[k as int], old_r[q - 1]));
                        lemma_le_trans(x@, old_r[k as int], old_r[q - 1], 0);
                    }
                } else {
                    assert(le(old_r[p - 1], old_r[q - 1]));
                }
            }
            old_r.to_multiset_ensures();
            old_v.to_multiset_ensures();
            assert(views(v@.take(i + 1)) =~= old_v.push(x@));
            new_r.to_multiset_ensures();
            assert(new_r.remove(k as int) =~= old_r);
            assert(new_r[k as int] == x@);
            assert(new_r.to_multiset().count(x@) > 0);
            assert(new_r.to_multiset() =~= old_r.to_multiset().insert(x@));
        }
        i += 1;
    }
    assert(v@.take(i as int) =~= v@);
    r
}

} // verus!
