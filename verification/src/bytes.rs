//! Lengths in bytes of the UTF-8 encoding, and cuts at byte offsets.
use vstd::prelude::*;
use vstd::utf8::*;
use crate::trim::part;

verus! {

/// The number of bytes that encode `c`.
pub open spec fn width(c: char) -> nat {
    let n = c as int;
    if n < 0x80 {
        1
    } else if n < 0x800 {
        2
    } else if n < 0x10000 {
        3
    } else {
        4
    }
}

/// The number of bytes that encode `s`.
pub open spec fn byte_len(s: Seq<char>) -> nat
    decreases s.len(),
{
    if s.len() == 0 {
        0
    } else {
        byte_len(s.drop_last()) + width(s.last())
    }
}

/// Computes [`width`].
pub fn char_width(c: char) -> (r: usize)
    ensures
        r == width(c),
        1 <= r <= 4,
{
    let n: u32 = c as u32;
    if n < 0x80 {
        1
    } else if n < 0x800 {
        2
    } else if n < 0x10000 {
        3
    } else {
        4
    }
}

/// The length of a concatenation.
pub proof fn lemma_byte_len_add(a: Seq<char>, b: Seq<char>)
    ensures
        byte_len(a + b) == byte_len(a) + byte_len(b),
    decreases b.len(),
{
    if b.len() == 0 {
        assert(a + b =~= a);
    } else {
        assert((a + b).drop_last() =~= a + b.drop_last());
        lemma_byte_len_add(a, b.drop_last());
    }
}

/// Appending one character.
pub proof fn lemma_byte_len_push(a: Seq<char>, c: char)
    ensures
        byte_len(a.push(c)) == byte_len(a) + width(c),
{
    assert(a.push(c).drop_last() =~= a);
}

/// Each character takes one to four bytes.
pub proof fn lemma_byte_len_bounds(a: Seq<char>)
    ensures
        a.len() <= byte_len(a) <= 4 * a.len(),
    decreases a.len(),
{
    if a.len() > 0 {
        lemma_byte_len_bounds(a.drop_last());
    }
}

/// A prefix is no longer than the whole, and shorter if it is proper.
pub proof fn lemma_byte_len_take(a: Seq<char>, i: int, j: int)
    requires
        0 <= i <= j <= a.len(),
    ensures
        byte_len(a.take(i)) <= byte_len(a.take(j)) <= byte_len(a),
        i < j ==> byte_len(a.take(i)) < byte_len(a.take(j)),
        byte_len(a) == byte_len(a.take(j)) + byte_len(a.skip(j)),
{
    assert(a.take(j) =~= a.take(i) + a.subrange(i, j));
    lemma_byte_len_add(a.take(i), a.subrange(i, j));
    lemma_byte_len_bounds(a.subrange(i, j));
    assert(a =~= a.take(j) + a.skip(j));
    lemma_byte_len_add(a.take(j), a.skip(j));
}

/// The bytes of one character's encoding, counted.
proof fn lemma_width(c: char)
    ensures
        encode_scalar(c as u32).len() == width(c),
{
}

/// The bytes of the encoding, counted.
pub proof fn lemma_byte_len_encode(a: Seq<char>)
    ensures
        byte_len(a) == encode_utf8(a).len(),
    decreases a.len(),
{
    if a.len() > 0 {
        let rest = a.drop_first();
        lemma_byte_len_encode(rest);
        assert(a =~= seq![a[0]] + rest);
        lemma_byte_len_add(seq![a[0]], rest);
        assert(seq![a[0]].drop_last() =~= Seq::<char>::empty());
        reveal_with_fuel(byte_len, 2);
        assert(byte_len(seq![a[0]]) == width(a[0]));
        lemma_width(a[0]);
    }
}

/// The length in bytes of a string.
pub fn byte_len_of(s: &str) -> (n: usize)
    ensures
        n == byte_len(s@),
{
    proof {
        lemma_byte_len_encode(s@);
    }
    s.as_bytes().len()
}

/// How many characters of `s`, counted from `i` on, fit before the byte
/// offset `n`: the greatest `k` with at most `n` bytes before it.
pub open spec fn chars_within(s: Seq<char>, n: int, i: int) -> int
    decreases s.len() - i,
{
    if 0 <= i < s.len() && byte_len(s.take(i + 1)) <= n {
        chars_within(s, n, i + 1)
    } else {
        i
    }
}

/// The longest prefix of at most `n` bytes.
pub open spec fn byte_prefix(s: Seq<char>, n: int) -> Seq<char> {
    s.take(chars_within(s, n, 0))
}

/// [`chars_within`] is the greatest count that fits.
pub proof fn lemma_chars_within(s: Seq<char>, n: int, i: int)
    requires
        0 <= i <= s.len(),
        byte_len(s.take(i)) <= n,
    ensures
        i <= chars_within(s, n, i) <= s.len(),
        byte_len(s.take(chars_within(s, n, i))) <= n,
        chars_within(s, n, i) < s.len() ==> byte_len(s.take(chars_within(s, n, i) + 1)) > n,
    decreases s.len() - i,
{
    if i < s.len() && byte_len(s.take(i + 1)) <= n {
        lemma_chars_within(s, n, i + 1);
    }
}

/// Computes [`chars_within`] from the start.
pub fn count_within(v: &Vec<char>, n: usize) -> (k: usize)
    ensures
        k == chars_within(v@, n as int, 0),
        k <= v@.len(),
{
    let mut i: usize = 0;
    let mut used: usize = 0;
    assert(v@.take(0) =~= Seq::<char>::empty());
    while i < v.len()
        invariant
            i <= v@.len(),
            used == byte_len(v@.take(i as int)),
            used <= n,
            chars_within(v@, n as int, 0) == chars_within(v@, n as int, i as int),
        decreases v@.len() - i,
    {
        let w = char_width(v[i]);
        proof {
            assert(v@.take(i + 1) =~= v@.take(i as int).push(v@[i as int]));
            lemma_byte_len_push(v@.take(i as int), v@[i as int]);
        }
        if w > n - used {
            return i;
        }
        used += w;
        i += 1;
    }
    i
}

/// Computes [`byte_prefix`].
pub fn byte_prefix_of(v: &Vec<char>, n: usize) -> (r: Vec<char>)
    ensures
        r@ == byte_prefix(v@, n as int),
{
    let k = count_within(v, n);
    let r = part(v, 0, k);
    assert(r@ =~= v@.take(k as int));
    r
}

/// Whether `v` takes more than `n` bytes.
pub fn longer_than(v: &Vec<char>, n: usize) -> (r: bool)
    ensures
        r == (byte_len(v@) > n),
{
    let k = count_within(v, n);
    proof {
        assert(v@.take(0) =~= Seq::<char>::empty());
        lemma_chars_within(v@, n as int, 0);
        lemma_byte_len_take(v@, k as int, k as int);
        if k < v@.len() {
            lemma_byte_len_take(v@, k + 1, k + 1);
        } else {
            assert(v@.take(k as int) =~= v@);
        }
    }
    k < v.len()
}

/// A cut text is the beginning of the text, takes no more bytes than are allowed,
/// and is the longest such beginning.
pub proof fn law_cut_is_the_longest_that_fits(s: Seq<char>, n: int, k: int)
    requires
        0 <= n,
        0 <= k <= s.len(),
        encode_utf8(s.take(k)).len() <= n,
    ensures
        ({
            let r = byte_prefix(s, n);
            &&& k <= r.len() <= s.len()
            &&& r == s.take(r.len() as int)
            &&& encode_utf8(r).len() <= n
            &&& k == s.len() ==> r == s
        }),
{
    assert(byte_len(s.take(0)) == 0);
    lemma_chars_within(s, n, 0);
    let c = chars_within(s, n, 0);
    lemma_byte_len_encode(s.take(k));
    lemma_byte_len_encode(s.take(c));
    if c < k {
        lemma_byte_len_take(s, c + 1, k);
    }
    assert(s.take(s.len() as int) =~= s);
}

} // verus!
