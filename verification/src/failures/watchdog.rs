//! Ending a response that runs in circles.
use vstd::prelude::*;
use crate::bytes::{char_width, longer_than};
use crate::bytes::{byte_len, lemma_byte_len_add, lemma_byte_len_take, width};
use crate::text::{chars_of, find_chars, lower_chars, same_chars, stands_at, string_of_all, CharSet};
use crate::text::{find_from, is_ascii_space, lemma_find_from, lower_all, starts_with};
use crate::trim::{char_views, lines_of, part, trim_chars, trim_start_chars};
use crate::trim::{lines, trim, trim_start};

verus! {

/// Counts a tool call. More than `max` of them end the response.
pub fn bump_f12_tool_call_count(count: &mut usize, max: usize, stop: &mut bool)
    requires
        *old(count) < usize::MAX,
    ensures
        *final(count) == *old(count) + 1,
        *final(stop) == (*old(stop) || *final(count) > max),
{
    *count = *count + 1;
    if *count > max {
        *stop = true;
    }
}

// ---------------------------------------------------------------------------
// The window
// ---------------------------------------------------------------------------
/// How many bytes the window may hold.
pub const WINDOW_BYTES: usize = 10_240;

/// How many bytes are kept of a window that grew over its limit.
pub const KEPT_BYTES: usize = 8_192;

/// The first position at or after `k` from which on at most `n` bytes follow.
pub open spec fn suffix_start(s: Seq<char>, n: nat, k: int) -> int
    decreases s.len() - k,
{
    if k < 0 || k >= s.len() || byte_len(s.skip(k)) <= n {
        k
    } else {
        suffix_start(s, n, k + 1)
    }
}

/// The window after some text: all of it, or what is kept of it.
pub open spec fn window(s: Seq<char>) -> Seq<char> {
    if byte_len(s) > WINDOW_BYTES {
        s.skip(suffix_start(s, KEPT_BYTES as nat, 0))
    } else {
        s
    }
}

proof fn lemma_suffix_start(s: Seq<char>, n: nat, k: int)
    requires
        0 <= k <= s.len(),
    ensures
        k <= suffix_start(s, n, k) <= s.len(),
        byte_len(s.skip(suffix_start(s, n, k))) <= n,
    decreases s.len() - k,
{
    if k < s.len() && byte_len(s.skip(k)) > n {
        lemma_suffix_start(s, n, k + 1);
    }
    if k == s.len() {
        assert(s.skip(k).len() == 0);
    }
}

/// The window never holds more than its limit.
pub proof fn law_window_is_bounded(s: Seq<char>)
    ensures
        byte_len(window(s)) <= WINDOW_BYTES,
{
    if byte_len(s) > WINDOW_BYTES {
        lemma_suffix_start(s, KEPT_BYTES as nat, 0);
    }
}

/// Computes [`window`].
fn cut_window(v: Vec<char>) -> (r: Vec<char>)
    ensures
        r@ == window(v@),
{
    if !longer_than(&v, WINDOW_BYTES) {
        return v;
    }
    // Read from the end, as long as what is read fits.
    let mut k: usize = v.len();
    let mut bytes: usize = 0;
    assert(v@.skip(k as int) =~= Seq::<char>::empty());
    while k > 0 && bytes + char_width(v[k - 1]) <= KEPT_BYTES
        invariant
            k <= v@.len(),
            bytes == byte_len(v@.skip(k as int)),
            bytes <= KEPT_BYTES,
        decreases k,
    {
        proof {
            lemma_skip_width(v@, k - 1);
        }
        bytes = bytes + char_width(v[k - 1]);
        k -= 1;
    }
    proof {
        lemma_byte_len_take(v@, 0, v@.len() as int);
        if k > 0 {
            lemma_skip_width(v@, k - 1);
        } else {
            assert(v@.skip(0) =~= v@);
        }
        lemma_suffix_start_is(v@, KEPT_BYTES as nat, 0, k as int);
    }
    let r = part(&v, k, v.len());
    assert(r@ =~= v@.skip(k as int));
    r
}

proof fn lemma_skip_width(s: Seq<char>, k: int)
    requires
        0 <= k < s.len(),
    ensures
        byte_len(s.skip(k)) == width(s[k]) + byte_len(s.skip(k + 1)),
{
    assert(s.skip(k) =~= seq![s[k]] + s.skip(k + 1));
    lemma_byte_len_add(seq![s[k]], s.skip(k + 1));
    assert(seq![s[k]] =~= Seq::<char>::empty().push(s[k]));
    crate::bytes::lemma_byte_len_push(Seq::empty(), s[k]);
}

proof fn lemma_skip_shrinks(s: Seq<char>, j: int, k: int)
    requires
        0 <= j <= k <= s.len(),
    ensures
        byte_len(s.skip(k)) <= byte_len(s.skip(j)),
    decreases k - j,
{
    if j < k {
        lemma_skip_width(s, j);
        lemma_skip_shrinks(s, j + 1, k);
    }
}

proof fn lemma_suffix_start_is(s: Seq<char>, n: nat, i: int, k: int)
    requires
        0 <= i <= k <= s.len(),
        byte_len(s.skip(k)) <= n,
        k > 0 ==> byte_len(s.skip(k - 1)) > n,
    ensures
        suffix_start(s, n, i) == k,
    decreases k - i,
{
    if i < k {
        lemma_skip_shrinks(s, i, k - 1);
        lemma_suffix_start_is(s, n, i + 1, k);
    }
}

// ---------------------------------------------------------------------------
// Lines up to case and white space
// ---------------------------------------------------------------------------
/// A text with each run of ASCII white space, but for one at the start, made
/// one space.
pub open spec fn squeezed(s: Seq<char>) -> Seq<char>
    decreases s.len(),
{
    if s.len() == 0 {
        Seq::empty()
    } else {
        let before = squeezed(s.drop_last());
        if !is_ascii_space(s.last()) {
            before.push(s.last())
        } else if before.len() == 0 || (s.len() >= 2 && is_ascii_space(s[s.len() - 2])) {
            before
        } else {
            before.push(' ')
        }
    }
}

/// A line without regard to case and white space.
pub open spec fn line_key(l: Seq<char>) -> Seq<char> {
    let q = squeezed(lower_all(trim(l, CharSet::White)));
    if q.len() > 0 && q.last() == ' ' {
        q.drop_last()
    } else {
        q
    }
}

/// Computes [`line_key`].
fn key_of_line(l: &Vec<char>) -> (r: Vec<char>)
    ensures
        r@ == line_key(l@),
{
    let v = lower_chars(&trim_chars(l, CharSet::White));
    let mut out: Vec<char> = Vec::new();
    let mut after_space = false;
    let mut i: usize = 0;
    assert(v@.take(0) =~= Seq::<char>::empty());
    while i < v.len()
        invariant
            i <= v@.len(),
            out@ == squeezed(v@.take(i as int)),
            after_space == (i > 0 && is_ascii_space(v@[i - 1])),
        decreases v@.len() - i,
    {
        let c = v[i];
        proof {
            let t = v@.take(i + 1);
            assert(t.drop_last() =~= v@.take(i as int));
            assert(t.last() == c);
            if i > 0 {
                assert(t[t.len() - 2] == v@[i - 1]);
            }
        }
        if c == ' ' || c == '\t' || c == '\n' || c == '\x0C' || c == '\r' {
            if !after_space && out.len() > 0 {
                out.push(' ');
            }
            after_space = true;
        } else {
            out.push(c);
            after_space = false;
        }
        i += 1;
    }
    assert(v@.take(i as int) =~= v@);
    if out.len() > 0 && out[out.len() - 1] == ' ' {
        let n = out.len() - 1;
        let r = part(&out, 0, n);
        assert(r@ =~= out@.drop_last());
        r
    } else {
        out
    }
}

/// Whether a line can be looked for: long enough, and no code fence.
pub open spec fn is_candidate(l: Seq<char>) -> bool {
    byte_len(trim(l, CharSet::White)) > 15 && !starts_with(
        trim_start(l, CharSet::White),
        "```"@,
    )
}

/// Decides [`is_candidate`].
fn qualifies(l: &Vec<char>) -> (r: bool)
    ensures
        r == is_candidate(l@),
{
    if !longer_than(&trim_chars(l, CharSet::White), 15) {
        return false;
    }
    let fence = chars_of("```");
    !stands_at(&trim_start_chars(l, CharSet::White), &fence, 0)
}

/// The last of the first `n` lines that can be looked for.
pub open spec fn last_candidate(ls: Seq<Seq<char>>, n: nat) -> Option<Seq<char>>
    decreases n,
{
    if n == 0 || n > ls.len() {
        None
    } else if is_candidate(ls[n - 1]) {
        Some(ls[n - 1])
    } else {
        last_candidate(ls, (n - 1) as nat)
    }
}

/// How many of the lines equal `key` up to case and white space.
pub open spec fn lines_like(ls: Seq<Seq<char>>, key: Seq<char>) -> nat
    decreases ls.len(),
{
    if ls.len() == 0 {
        0
    } else {
        lines_like(ls.drop_last(), key) + if line_key(ls.last()) == key {
            1nat
        } else {
            0nat
        }
    }
}

/// How often `p` stands in `s` at or after `from`, without overlap.
pub open spec fn hits(s: Seq<char>, p: Seq<char>, from: int) -> nat
    decreases s.len() - from,
    when 0 <= from <= s.len() && p.len() > 0
    via hits_decreases
{
    match find_from(s, p, from) {
        Some(i) => 1 + hits(s, p, i + p.len()),
        None => 0,
    }
}

#[via_fn]
proof fn hits_decreases(s: Seq<char>, p: Seq<char>, from: int) {
    lemma_find_from(s, p, from);
}

/// Whether the text repeats its last line: the line stands in it four times,
/// or, where it is at least 30 bytes long, its text does.
pub open spec fn repeats(s: Seq<char>) -> bool {
    let ls = lines(s);
    match last_candidate(ls, ls.len()) {
        Some(l) => {
            let key = line_key(l);
            key.len() > 0 && (lines_like(ls, key) >= 4 || (byte_len(key) >= 30 && hits(
                lower_all(s),
                key,
                0,
            ) >= 4))
        },
        None => false,
    }
}

/// Whether `p` stands in `s` at least `n` times, without overlap.
fn hits_at_least(s: &Vec<char>, p: &Vec<char>, n: usize) -> (r: bool)
    requires
        p@.len() > 0,
    ensures
        r == (hits(s@, p@, 0) >= n),
{
    let mut count: usize = 0;
    let mut from: usize = 0;
    while count < n
        invariant
            from <= s@.len(),
            count <= n,
            p@.len() > 0,
            hits(s@, p@, 0) == count + hits(s@, p@, from as int),
        decreases s@.len() - from,
    {
        match find_chars(s, p, from) {
            Some(i) => {
                count = count + 1;
                from = i + p.len();
            },
            None => {
                return false;
            },
        }
    }
    true
}

/// Decides [`repeats`].
fn runs_in_circles(v: &Vec<char>) -> (r: bool)
    ensures
        r == repeats(v@),
{
    let ls = lines_of(v);
    let ghost lv = lines(v@);
    let mut n: usize = ls.len();
    while n > 0 && !qualifies(&ls[n - 1])
        invariant
            n <= ls@.len(),
            lv == char_views(ls@),
            last_candidate(lv, lv.len()) == last_candidate(lv, n as nat),
        decreases n,
    {
        assert(lv[n - 1] == ls@[n - 1]@);
        n -= 1;
    }
    if n == 0 {
        return false;
    }
    assert(lv[n - 1] == ls@[n - 1]@);
    let key = key_of_line(&ls[n - 1]);
    if key.len() == 0 {
        return false;
    }
    let mut like: usize = 0;
    let mut i: usize = 0;
    assert(lv.take(0) =~= Seq::<Seq<char>>::empty());
    while i < ls.len()
        invariant
            i <= ls@.len(),
            lv == char_views(ls@),
            like <= i,
            like == lines_like(lv.take(i as int), key@),
        decreases ls@.len() - i,
    {
        proof {
            assert(lv[i as int] == ls@[i as int]@);
            assert(lv.take(i + 1).drop_last() =~= lv.take(i as int));
        }
        if same_chars(&key_of_line(&ls[i]), &key) {
            like = like + 1;
        }
        i += 1;
    }
    assert(lv.take(i as int) =~= lv);
    if like >= 4 {
        return true;
    }
    longer_than(&key, 29) && hits_at_least(&lower_chars(v), &key, 4)
}

/// Adds text to the window and says whether the window repeats its last line.
/// Once that was so, and where there is no text, nothing is done.
pub fn check_loop_watchdog(
    text: &str,
    loop_scan_buf: &mut String,
    already_triggered: bool,
) -> (r: bool)
    ensures
        if already_triggered || text@.len() == 0 {
            !r && final(loop_scan_buf)@ == old(loop_scan_buf)@
        } else {
            &&& final(loop_scan_buf)@ == window(old(loop_scan_buf)@ + text@)
            &&& r == repeats(window(old(loop_scan_buf)@ + text@))
        },
{
    let added = chars_of(text);
    if already_triggered || added.len() == 0 {
        return false;
    }
    loop_scan_buf.append(text);
    let v = cut_window(chars_of(loop_scan_buf.as_str()));
    let r = runs_in_circles(&v);
    *loop_scan_buf = string_of_all(&v);
    r
}

} // verus!
