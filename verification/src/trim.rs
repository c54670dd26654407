//! Trimming, splitting, joining and replacing.
use vstd::prelude::*;
use crate::text::{find_chars, CharSet};
use crate::text::{
    contains, find, find_from, lemma_find_from, lemma_find_from_is, lemma_find_from_none,
    lemma_stands_between, occurs_at, views,
};

verus! {

/// The first position at or after `i` whose character is not in `set`.
pub open spec fn lead(s: Seq<char>, set: CharSet, i: int) -> int
    decreases s.len() - i,
{
    if 0 <= i < s.len() && set.has(s[i]) {
        lead(s, set, i + 1)
    } else {
        i
    }
}

/// One past the last position before `i` whose character is not in `set`.
pub open spec fn tail(s: Seq<char>, set: CharSet, i: int) -> int
    decreases i,
{
    if 0 < i <= s.len() && set.has(s[i - 1]) {
        tail(s, set, i - 1)
    } else {
        i
    }
}

/// `s` without its leading characters in `set`.
pub open spec fn trim_start(s: Seq<char>, set: CharSet) -> Seq<char> {
    s.skip(lead(s, set, 0))
}

/// `s` without its trailing characters in `set`.
pub open spec fn trim_end(s: Seq<char>, set: CharSet) -> Seq<char> {
    s.take(tail(s, set, s.len() as int))
}

/// `s` without its leading and trailing characters in `set`.
pub open spec fn trim(s: Seq<char>, set: CharSet) -> Seq<char> {
    trim_end(trim_start(s, set), set)
}

/// [`lead`] stops inside the sequence, after a run of members.
pub proof fn lemma_lead(s: Seq<char>, set: CharSet, i: int)
    requires
        0 <= i <= s.len(),
    ensures
        i <= lead(s, set, i) <= s.len(),
        forall|j: int| i <= j < lead(s, set, i) ==> set.has(#[trigger] s[j]),
        lead(s, set, i) < s.len() ==> !set.has(s[lead(s, set, i)]),
    decreases s.len() - i,
{
    if i < s.len() && set.has(s[i]) {
        lemma_lead(s, set, i + 1);
    }
}

/// Computes [`lead`] from the start.
pub fn lead_of(v: &Vec<char>, set: CharSet) -> (k: usize)
    ensures
        k == lead(v@, set, 0),
        k <= v@.len(),
{
    let mut i: usize = 0;
    while i < v.len() && set.test(v[i])
        invariant
            i <= v@.len(),
            lead(v@, set, 0) == lead(v@, set, i as int),
        decreases v@.len() - i,
    {
        i += 1;
    }
    i
}

/// Computes [`tail`] from the end.
pub fn tail_of(v: &Vec<char>, set: CharSet) -> (k: usize)
    ensures
        k == tail(v@, set, v@.len() as int),
        k <= v@.len(),
{
    let mut i: usize = v.len();
    while i > 0 && set.test(v[i - 1])
        invariant
            i <= v@.len(),
            tail(v@, set, v@.len() as int) == tail(v@, set, i as int),
        decreases i,
    {
        i -= 1;
    }
    i
}

/// Part of a character vector.
pub fn part(v: &Vec<char>, lo: usize, hi: usize) -> (r: Vec<char>)
    requires
        lo <= hi <= v@.len(),
    ensures
        r@ == v@.subrange(lo as int, hi as int),
{
    let mut r: Vec<char> = Vec::new();
    let mut i: usize = lo;
    while i < hi
        invariant
            lo <= i <= hi <= v@.len(),
            r@ == v@.subrange(lo as int, i as int),
        decreases hi - i,
    {
        r.push(v[i]);
        i += 1;
        assert(r@ =~= v@.subrange(lo as int, i as int));
    }
    r
}

/// Computes [`trim_start`].
pub fn trim_start_chars(v: &Vec<char>, set: CharSet) -> (r: Vec<char>)
    ensures
        r@ == trim_start(v@, set),
{
    let k = lead_of(v, set);
    let r = part(v, k, v.len());
    assert(r@ =~= v@.skip(k as int));
    r
}

/// Computes [`trim_end`].
pub fn trim_end_chars(v: &Vec<char>, set: CharSet) -> (r: Vec<char>)
    ensures
        r@ == trim_end(v@, set),
{
    let k = tail_of(v, set);
    let r = part(v, 0, k);
    assert(r@ =~= v@.take(k as int));
    r
}

/// Computes [`trim`].
pub fn trim_chars(v: &Vec<char>, set: CharSet) -> (r: Vec<char>)
    ensures
        r@ == trim(v@, set),
{
    let a = trim_start_chars(v, set);
    trim_end_chars(&a, set)
}

// ---------------------------------------------------------------------------
// Lines
// ---------------------------------------------------------------------------
/// The first position at or after `i` whose character is in `set`, or the
/// length.
pub open spec fn until(s: Seq<char>, set: CharSet, i: int) -> int
    decreases s.len() - i,
{
    if 0 <= i < s.len() && !set.has(s[i]) {
        until(s, set, i + 1)
    } else {
        i
    }
}

/// [`until`] stops at the first member or at the end.
pub proof fn lemma_until(s: Seq<char>, set: CharSet, i: int)
    requires
        0 <= i <= s.len(),
    ensures
        i <= until(s, set, i) <= s.len(),
        forall|j: int| i <= j < until(s, set, i) ==> !set.has(#[trigger] s[j]),
        until(s, set, i) < s.len() ==> set.has(s[until(s, set, i)]),
    decreases s.len() - i,
{
    if i < s.len() && !set.has(s[i]) {
        lemma_until(s, set, i + 1);
    }
}

/// Computes [`until`].
pub fn until_of(v: &Vec<char>, set: CharSet, from: usize) -> (k: usize)
    requires
        from <= v@.len(),
    ensures
        k == until(v@, set, from as int),
        from <= k <= v@.len(),
{
    let mut i: usize = from;
    while i < v.len() && !set.test(v[i])
        invariant
            from <= i <= v@.len(),
            until(v@, set, from as int) == until(v@, set, i as int),
        decreases v@.len() - i,
    {
        i += 1;
    }
    i
}

/// A line without the carriage return before its line feed.
pub open spec fn strip_return(s: Seq<char>) -> Seq<char> {
    if s.len() > 0 && s.last() == '\r' {
        s.drop_last()
    } else {
        s
    }
}

/// The lines of `s` from position `i` on. A line ends at a line feed, which it
/// does not hold, nor the carriage return right before it; the text after the
/// last line feed is a line of its own where it is not empty.
pub open spec fn lines_from(s: Seq<char>, i: int) -> Seq<Seq<char>>
    decreases s.len() - i,
    when 0 <= i <= s.len()
    via lines_from_decreases
{
    if i >= s.len() {
        Seq::empty()
    } else {
        let k = until(s, CharSet::Feed, i);
        if k < s.len() {
            seq![strip_return(s.subrange(i, k))] + lines_from(s, k + 1)
        } else {
            seq![s.subrange(i, k)]
        }
    }
}

#[via_fn]
proof fn lines_from_decreases(s: Seq<char>, i: int) {
    if 0 <= i <= s.len() {
        lemma_until(s, CharSet::Feed, i);
    }
}

/// The lines of `s`.
pub open spec fn lines(s: Seq<char>) -> Seq<Seq<char>> {
    lines_from(s, 0)
}

/// The views of a sequence of character vectors.
pub open spec fn char_views(v: Seq<Vec<char>>) -> Seq<Seq<char>> {
    v.map_values(|x: Vec<char>| x@)
}

/// Computes [`lines`].
pub fn lines_of(v: &Vec<char>) -> (r: Vec<Vec<char>>)
    ensures
        char_views(r@) == lines(v@),
{
    let mut r: Vec<Vec<char>> = Vec::new();
    let mut i: usize = 0;
    assert(char_views(r@) + lines_from(v@, 0) =~= lines(v@));
    while i < v.len()
        invariant
            i <= v@.len(),
            char_views(r@) + lines_from(v@, i as int) == lines(v@),
        decreases v@.len() - i,
    {
        let k = until_of(v, CharSet::Feed, i);
        proof {
            lemma_until(v@, CharSet::Feed, i as int);
        }
        let ghost before = r@;
        if k < v.len() {
            let hi: usize = if k > i && v[k - 1] == '\r' {
                k - 1
            } else {
                k
            };
            let line = part(v, i, hi);
            proof {
                let whole = v@.subrange(i as int, k as int);
                if k > i {
                    assert(whole.last() == v@[k - 1]);
                    assert(whole.drop_last() =~= v@.subrange(i as int, k - 1));
                }
                assert(line@ == strip_return(whole));
            }
            r.push(line);
            i = k + 1;
            assert(char_views(r@) =~= char_views(before).push(line@));
            assert(char_views(before) + (seq![line@] + lines_from(v@, i as int)) =~= char_views(r@)
                + lines_from(v@, i as int));
        } else {
            let line = part(v, i, k);
            r.push(line);
            i = k;
            assert(char_views(r@) =~= char_views(before).push(line@));
            assert(lines_from(v@, i as int) =~= Seq::<Seq<char>>::empty());
            assert(char_views(before) + seq![line@] =~= char_views(r@));
        }
    }
    assert(lines_from(v@, i as int) =~= Seq::<Seq<char>>::empty());
    assert(char_views(r@) =~= lines(v@));
    r
}

// ---------------------------------------------------------------------------
// Splitting at separators
// ---------------------------------------------------------------------------
/// The pieces of `s` from position `i` on, split at each character in `set`.
pub open spec fn split_from(s: Seq<char>, set: CharSet, i: int) -> Seq<Seq<char>>
    decreases s.len() - i,
    when 0 <= i <= s.len()
    via split_from_decreases
{
    let k = until(s, set, i);
    if k < s.len() {
        seq![s.subrange(i, k)] + split_from(s, set, k + 1)
    } else {
        seq![s.subrange(i, k)]
    }
}

#[via_fn]
proof fn split_from_decreases(s: Seq<char>, set: CharSet, i: int) {
    if 0 <= i <= s.len() {
        lemma_until(s, set, i);
    }
}

/// The pieces of `s` split at each character in `set`.
pub open spec fn split(s: Seq<char>, set: CharSet) -> Seq<Seq<char>> {
    split_from(s, set, 0)
}

/// Computes [`split`].
pub fn split_of(v: &Vec<char>, set: CharSet) -> (r: Vec<Vec<char>>)
    ensures
        char_views(r@) == split(v@, set),
{
    let mut r: Vec<Vec<char>> = Vec::new();
    let mut i: usize = 0;
    assert(char_views(r@) + split_from(v@, set, 0) =~= split(v@, set));
    loop
        invariant
            i <= v@.len(),
            char_views(r@) + split_from(v@, set, i as int) == split(v@, set),
        decreases v@.len() - i,
    {
        let k = until_of(v, set, i);
        proof {
            lemma_until(v@, set, i as int);
        }
        let ghost before = r@;
        let piece = part(v, i, k);
        r.push(piece);
        assert(char_views(r@) =~= char_views(before).push(piece@));
        if k < v.len() {
            i = k + 1;
            assert(char_views(before) + (seq![piece@] + split_from(v@, set, i as int))
                =~= char_views(r@) + split_from(v@, set, i as int));
        } else {
            assert(char_views(before) + seq![piece@] =~= char_views(r@));
            return r;
        }
    }
}

/// What follows the last character of `s` that is in `set`; all of `s` where
/// there is none.
pub open spec fn after_last(s: Seq<char>, set: CharSet) -> Seq<char> {
    s.skip(after_last_at(s, set, s.len() as int))
}

/// One past the last member before `i`, or 0.
pub open spec fn after_last_at(s: Seq<char>, set: CharSet, i: int) -> int
    decreases i,
{
    if 0 < i <= s.len() && !set.has(s[i - 1]) {
        after_last_at(s, set, i - 1)
    } else {
        i
    }
}

/// Computes [`after_last`].
pub fn after_last_of(v: &Vec<char>, set: CharSet) -> (r: Vec<char>)
    ensures
        r@ == after_last(v@, set),
{
    let mut i: usize = v.len();
    while i > 0 && !set.test(v[i - 1])
        invariant
            i <= v@.len(),
            after_last_at(v@, set, v@.len() as int) == after_last_at(v@, set, i as int),
        decreases i,
    {
        i -= 1;
    }
    let r = part(v, i, v.len());
    assert(r@ =~= v@.skip(i as int));
    r
}

/// The first run of characters that are not white space, if any.
pub open spec fn first_word(s: Seq<char>) -> Option<Seq<char>> {
    let t = trim_start(s, CharSet::White);
    if t.len() == 0 {
        None
    } else {
        Some(t.take(until(t, CharSet::White, 0)))
    }
}

/// Computes [`first_word`].
pub fn first_word_of(v: &Vec<char>) -> (r: Option<Vec<char>>)
    ensures
        match r {
            Some(w) => first_word(v@) == Some(w@) && w@.len() > 0,
            None => first_word(v@) is None,
        },
{
    let t = trim_start_chars(v, CharSet::White);
    if t.len() == 0 {
        return None;
    }
    let k = until_of(&t, CharSet::White, 0);
    let w = part(&t, 0, k);
    proof {
        lemma_lead(v@, CharSet::White, 0);
        lemma_until(t@, CharSet::White, 0);
        assert(t@[0] == v@[lead(v@, CharSet::White, 0)]);
        assert(w@ =~= t@.take(k as int));
    }
    Some(w)
}

// ---------------------------------------------------------------------------
// Joining and replacing
// ---------------------------------------------------------------------------
/// The parts with `sep` between each two.
pub open spec fn join(parts: Seq<Seq<char>>, sep: Seq<char>) -> Seq<char>
    decreases parts.len(),
{
    if parts.len() == 0 {
        Seq::empty()
    } else if parts.len() == 1 {
        parts[0]
    } else {
        join(parts.drop_last(), sep) + sep + parts.last()
    }
}

/// Computes [`join`] of strings.
pub fn join_strings(parts: &Vec<String>, sep: &str) -> (r: String)
    ensures
        r@ == join(views(parts@), sep@),
{
    let mut r = String::new();
    let mut i: usize = 0;
    while i < parts.len()
        invariant
            i <= parts@.len(),
            r@ == join(views(parts@.take(i as int)), sep@),
        decreases parts@.len() - i,
    {
        let ghost done = views(parts@.take(i as int));
        let ghost more = views(parts@.take(i + 1));
        proof {
            assert(more.drop_last() =~= done);
            assert(more.last() == parts@[i as int]@);
        }
        if i > 0 {
            r.append(sep);
        }
        let ghost mid = r@;
        r.append(parts[i].as_str());
        proof {
            if i == 0 {
                assert(mid + parts@[0]@ =~= parts@[0]@);
            }
        }
        i += 1;
    }
    assert(parts@.take(i as int) =~= parts@);
    r
}

/// `s` from position `i` on, with each occurrence of `p`, taken from left to
/// right without overlap, replaced by `q`.
pub open spec fn replace_from(s: Seq<char>, p: Seq<char>, q: Seq<char>, i: int) -> Seq<char>
    decreases s.len() - i,
    when 0 <= i <= s.len() && p.len() > 0
    via replace_from_decreases
{
    match find_from(s, p, i) {
        Some(k) => s.subrange(i, k) + q + replace_from(s, p, q, k + p.len()),
        None => s.skip(i),
    }
}

#[via_fn]
proof fn replace_from_decreases(s: Seq<char>, p: Seq<char>, q: Seq<char>, i: int) {
    if 0 <= i <= s.len() && p.len() > 0 {
        lemma_find_from(s, p, i);
    }
}

/// `s` with each occurrence of `p` replaced by `q`.
pub open spec fn replace(s: Seq<char>, p: Seq<char>, q: Seq<char>) -> Seq<char> {
    replace_from(s, p, q, 0)
}

/// Computes [`replace`].
pub fn replace_chars(s: &Vec<char>, p: &Vec<char>, q: &Vec<char>) -> (r: Vec<char>)
    requires
        p@.len() > 0,
    ensures
        r@ == replace(s@, p@, q@),
{
    let mut r: Vec<char> = Vec::new();
    let mut i: usize = 0;
    assert(r@ + replace_from(s@, p@, q@, 0) =~= replace(s@, p@, q@));
    loop
        invariant
            i <= s@.len(),
            p@.len() > 0,
            r@ + replace_from(s@, p@, q@, i as int) == replace(s@, p@, q@),
        decreases s@.len() - i,
    {
        let ghost before = r@;
        match find_chars(s, p, i) {
            Some(k) => {
                push_part(&mut r, s, i, k);
                push_part(&mut r, q, 0, q.len());
                proof {
                    assert(q@.subrange(0, q@.len() as int) =~= q@);
                    assert(before + (s@.subrange(i as int, k as int) + q@ + replace_from(
                        s@,
                        p@,
                        q@,
                        k + p@.len(),
                    )) =~= r@ + replace_from(s@, p@, q@, k + p@.len()));
                }
                i = k + p.len();
            },
            None => {
                push_part(&mut r, s, i, s.len());
                assert(s@.subrange(i as int, s@.len() as int) =~= s@.skip(i as int));
                return r;
            },
        }
    }
}

/// Appends `v[lo..hi]` to `r`.
pub fn push_part(r: &mut Vec<char>, v: &Vec<char>, lo: usize, hi: usize)
    requires
        lo <= hi <= v@.len(),
    ensures
        final(r)@ == old(r)@ + v@.subrange(lo as int, hi as int),
{
    let ghost start = r@;
    let mut i: usize = lo;
    assert(start + v@.subrange(lo as int, lo as int) =~= start);
    while i < hi
        invariant
            lo <= i <= hi <= v@.len(),
            r@ == start + v@.subrange(lo as int, i as int),
        decreases hi - i,
    {
        r.push(v[i]);
        i += 1;
        assert(r@ =~= start + v@.subrange(lo as int, i as int));
    }
}

// ---------------------------------------------------------------------------
// Laws
// ---------------------------------------------------------------------------
proof fn lemma_tail(s: Seq<char>, set: CharSet, i: int)
    requires
        0 <= i <= s.len(),
    ensures
        0 <= tail(s, set, i) <= i,
        forall|j: int| tail(s, set, i) <= j < i ==> set.has(#[trigger] s[j]),
        tail(s, set, i) > 0 ==> !set.has(s[tail(s, set, i) - 1]),
    decreases i,
{
    if 0 < i && set.has(s[i - 1]) {
        lemma_tail(s, set, i - 1);
    }
}

/// All the characters are in the set.
pub open spec fn all_in(s: Seq<char>, set: CharSet) -> bool {
    forall|i: int| 0 <= i < s.len() ==> set.has(#[trigger] s[i])
}

/// Trimming takes off characters of the set alone, at the ends alone, and all
/// of them.
pub proof fn law_trimming_takes_the_ends(s: Seq<char>, set: CharSet)
    ensures
        ({
            let t = trim_start(s, set);
            &&& t.len() <= s.len()
            &&& t == s.skip(s.len() - t.len())
            &&& all_in(s.take(s.len() - t.len()), set)
            &&& t.len() > 0 ==> !set.has(t[0])
        }),
        ({
            let t = trim_end(s, set);
            &&& t.len() <= s.len()
            &&& t == s.take(t.len() as int)
            &&& all_in(s.skip(t.len() as int), set)
            &&& t.len() > 0 ==> !set.has(t.last())
        }),
        exists|a: Seq<char>, b: Seq<char>|
            #![trigger a + trim(s, set) + b]
            s == a + trim(s, set) + b && all_in(a, set) && all_in(b, set),
        trim(s, set).len() > 0 ==> !set.has(trim(s, set)[0]) && !set.has(trim(s, set).last()),
{
    lemma_lead(s, set, 0);
    lemma_tail(s, set, s.len() as int);
    let t = trim_start(s, set);
    lemma_tail(t, set, t.len() as int);
    let u = trim(s, set);
    let a = s.take(lead(s, set, 0));
    let b = t.skip(u.len() as int);
    assert(s =~= a + u + b);
    assert(all_in(a, set));
    assert(all_in(b, set)) by {
        assert forall|i: int| 0 <= i < b.len() implies set.has(#[trigger] b[i]) by {
            assert(b[i] == t[u.len() + i]);
        }
    }
    assert(t =~= s.skip(s.len() - t.len()));
    let e = trim_end(s, set);
    assert(all_in(s.skip(e.len() as int), set)) by {
        assert forall|i: int| 0 <= i < s.skip(e.len() as int).len() implies set.has(
            #[trigger] s.skip(e.len() as int)[i],
        ) by {
            assert(s.skip(e.len() as int)[i] == s[e.len() + i]);
        }
    }
    if u.len() > 0 {
        assert(u[0] == t[0]);
        assert(t[0] == s[lead(s, set, 0)]);
    }
}

/// A text that neither begins nor ends with a character of the set is left
/// alone.
pub proof fn law_trimmed_text_is_kept(s: Seq<char>, set: CharSet)
    requires
        s.len() > 0 ==> !set.has(s[0]) && !set.has(s.last()),
    ensures
        trim_start(s, set) == s,
        trim_end(s, set) == s,
        trim(s, set) == s,
{
    lemma_lead(s, set, 0);
    lemma_tail(s, set, s.len() as int);
    assert(s.skip(0) =~= s);
    assert(s.take(s.len() as int) =~= s);
}

/// The lines with a line feed behind each.
pub open spec fn fed(ls: Seq<Seq<char>>) -> Seq<char>
    decreases ls.len(),
{
    if ls.len() == 0 {
        Seq::empty()
    } else {
        ls[0] + seq!['\n'] + fed(ls.drop_first())
    }
}

/// The lines of a text hold all of it: where it has no carriage returns, the
/// lines with a line feed behind each are the text, but for the line feed
/// behind a last line that has none. No line holds a line feed.
pub proof fn law_lines_are_the_text(s: Seq<char>)
    requires
        forall|i: int| 0 <= i < s.len() ==> #[trigger] s[i] != '\r',
    ensures
        fed(lines(s)) == if s.len() == 0 || s.last() == '\n' {
            s
        } else {
            s.push('\n')
        },
        forall|i: int, j: int|
            0 <= i < lines(s).len() && 0 <= j < lines(s)[i].len() ==> #[trigger] lines(s)[i][j]
                != '\n',
{
    lemma_lines_from(s, 0);
    assert(s.skip(0) =~= s);
}

proof fn lemma_lines_from(s: Seq<char>, i: int)
    requires
        0 <= i <= s.len(),
        forall|j: int| 0 <= j < s.len() ==> #[trigger] s[j] != '\r',
    ensures
        fed(lines_from(s, i)) == if i == s.len() || s.last() == '\n' {
            s.skip(i)
        } else {
            s.skip(i).push('\n')
        },
        forall|k: int, j: int|
            0 <= k < lines_from(s, i).len() && 0 <= j < lines_from(s, i)[k].len()
                ==> #[trigger] lines_from(s, i)[k][j] != '\n',
    decreases s.len() - i,
{
    let ls = lines_from(s, i);
    if i < s.len() {
        let k = until(s, CharSet::Feed, i);
        lemma_until(s, CharSet::Feed, i);
        let l = s.subrange(i, k);
        if k < s.len() {
            lemma_lines_from(s, k + 1);
            let rest = lines_from(s, k + 1);
            if l.len() > 0 {
                assert(l.last() == s[k - 1]);
            }
            assert(ls[0] == l);
            assert(ls.drop_first() =~= rest);
            assert forall|q: int, j: int|
                0 <= q < ls.len() && 0 <= j < ls[q].len() implies #[trigger] ls[q][j] != '\n' by {
                if q == 0 {
                    assert(l[j] == s[i + j]);
                } else {
                    assert(ls[q] == rest[q - 1]);
                }
            }
            if k + 1 == s.len() {
                assert(s.last() == s[k]);
            }
            assert(fed(ls) =~= if s.last() == '\n' {
                s.skip(i)
            } else {
                s.skip(i).push('\n')
            });
        } else {
            assert(s[s.len() - 1] != '\n');
            reveal_with_fuel(fed, 2);
            assert(ls.drop_first() =~= Seq::<Seq<char>>::empty());
            assert(fed(ls) =~= s.skip(i).push('\n'));
            assert forall|q: int, j: int|
                0 <= q < ls.len() && 0 <= j < ls[q].len() implies #[trigger] ls[q][j] != '\n' by {
                assert(l[j] == s[i + j]);
            }
        }
    } else {
        assert(s.skip(i) =~= Seq::<char>::empty());
    }
}

/// The pieces of a split text hold all of it but the separators: with a slash
/// between each two they are the text. No piece holds a separator.
pub proof fn law_split_joins(s: Seq<char>)
    ensures
        slashed(split(s, CharSet::Slash)) == s,
        split(s, CharSet::Slash).len() > 0,
        forall|k: int, j: int|
            0 <= k < split(s, CharSet::Slash).len() && 0 <= j < split(s, CharSet::Slash)[k].len()
                ==> #[trigger] split(s, CharSet::Slash)[k][j] != '/',
{
    lemma_split_from(s, 0);
    assert(s.skip(0) =~= s);
}

/// The pieces with a slash between each two.
pub open spec fn slashed(ps: Seq<Seq<char>>) -> Seq<char>
    decreases ps.len(),
{
    if ps.len() == 0 {
        Seq::empty()
    } else if ps.len() == 1 {
        ps[0]
    } else {
        ps[0] + seq!['/'] + slashed(ps.drop_first())
    }
}

proof fn lemma_split_from(s: Seq<char>, i: int)
    requires
        0 <= i <= s.len(),
    ensures
        slashed(split_from(s, CharSet::Slash, i)) == s.skip(i),
        split_from(s, CharSet::Slash, i).len() > 0,
        forall|k: int, j: int|
            0 <= k < split_from(s, CharSet::Slash, i).len() && 0 <= j < split_from(
                s,
                CharSet::Slash,
                i,
            )[k].len() ==> #[trigger] split_from(s, CharSet::Slash, i)[k][j] != '/',
    decreases s.len() - i,
{
    let ps = split_from(s, CharSet::Slash, i);
    let k = until(s, CharSet::Slash, i);
    lemma_until(s, CharSet::Slash, i);
    let l = s.subrange(i, k);
    if k < s.len() {
        lemma_split_from(s, k + 1);
        let rest = split_from(s, CharSet::Slash, k + 1);
        assert(ps[0] == l);
        assert(ps.drop_first() =~= rest);
        assert(slashed(ps) =~= s.skip(i));
        assert forall|q: int, j: int| 0 <= q < ps.len() && 0 <= j < ps[q].len() implies
            #[trigger] ps[q][j] != '/' by {
            if q == 0 {
                assert(l[j] == s[i + j]);
            } else {
                assert(ps[q] == rest[q - 1]);
            }
        }
    } else {
        assert(slashed(ps) =~= s.skip(i));
        assert forall|q: int, j: int| 0 <= q < ps.len() && 0 <= j < ps[q].len() implies
            #[trigger] ps[q][j] != '/' by {
            assert(l[j] == s[i + j]);
        }
    }
}

/// What follows the last character of a set: nothing of the set stands in it,
/// and it is an end of the text, all of it or behind such a character.
pub proof fn law_after_last_is_the_end(s: Seq<char>, set: CharSet)
    ensures
        ({
            let r = after_last(s, set);
            let at = s.len() - r.len();
            &&& 0 <= at
            &&& r == s.skip(at)
            &&& at > 0 ==> set.has(s[at - 1])
            &&& forall|j: int| 0 <= j < r.len() ==> !set.has(#[trigger] r[j])
        }),
{
    lemma_after_last(s, set, s.len() as int);
    assert(s.skip(after_last_at(s, set, s.len() as int)) =~= s.skip(
        s.len() - after_last(s, set).len(),
    ));
}

proof fn lemma_after_last(s: Seq<char>, set: CharSet, i: int)
    requires
        0 <= i <= s.len(),
    ensures
        0 <= after_last_at(s, set, i) <= i,
        after_last_at(s, set, i) > 0 ==> set.has(s[after_last_at(s, set, i) - 1]),
        forall|j: int| after_last_at(s, set, i) <= j < i ==> !set.has(#[trigger] s[j]),
    decreases i,
{
    if 0 < i && !set.has(s[i - 1]) {
        lemma_after_last(s, set, i - 1);
    }
}

/// The first word of a text: white space before it, none in it, and the end or
/// white space behind it. There is none where all is white space.
pub proof fn law_first_word(s: Seq<char>)
    ensures
        first_word(s) is None ==> all_in(s, CharSet::White),
        first_word(s) is Some ==> exists|a: Seq<char>, b: Seq<char>| #[trigger]
            leads(s, a, first_word(s)->0, b),
{
    lemma_lead(s, CharSet::White, 0);
    let t = trim_start(s, CharSet::White);
    if t.len() > 0 {
        lemma_until(t, CharSet::White, 0);
        let k = until(t, CharSet::White, 0);
        let a = s.take(lead(s, CharSet::White, 0));
        let w = t.take(k);
        let b = t.skip(k);
        assert(t[0] == s[lead(s, CharSet::White, 0)]);
        assert(s =~= a + w + b);
        assert(all_in(a, CharSet::White));
        assert forall|j: int| 0 <= j < w.len() implies !CharSet::White.has(#[trigger] w[j]) by {
            assert(w[j] == t[j]);
        }
        if b.len() > 0 {
            assert(b[0] == t[k]);
        }
        assert(first_word(s)->0 == w);
        assert(leads(s, a, first_word(s)->0, b));
    } else {
        assert(all_in(s, CharSet::White));
    }
}

/// The text is white space, a word, and the rest: nothing or white space first.
pub open spec fn leads(s: Seq<char>, a: Seq<char>, w: Seq<char>, b: Seq<char>) -> bool {
    &&& s == a + w + b
    &&& all_in(a, CharSet::White)
    &&& w.len() > 0
    &&& forall|j: int| 0 <= j < w.len() ==> !CharSet::White.has(#[trigger] w[j])
    &&& b.len() > 0 ==> CharSet::White.has(b[0])
}

/// A text without the pattern is left alone by replacing; where it stands, the
/// first occurrence gives way to the replacement, and the rest is replaced in.
pub proof fn law_replacing(s: Seq<char>, p: Seq<char>, q: Seq<char>, a: Seq<char>, b: Seq<char>)
    requires
        p.len() > 0,
    ensures
        find(s, p) is None ==> replace(s, p, q) == s,
        find(a + p + b, p) == Some(a.len() as int) ==> replace(a + p + b, p, q) == a + q + replace(
            b,
            p,
            q,
        ),
{
    lemma_find_from(s, p, 0);
    assert(s.skip(0) =~= s);
    let t = a + p + b;
    let n = (a.len() + p.len()) as int;
    if find(t, p) == Some(a.len() as int) {
        assert(t.subrange(0, a.len() as int) =~= a);
        assert(t.skip(n) =~= b);
        lemma_replace_shift(t, b, p, q, n, 0);
    }
}

proof fn lemma_replace_shift(
    t: Seq<char>,
    b: Seq<char>,
    p: Seq<char>,
    q: Seq<char>,
    n: int,
    i: int,
)
    requires
        p.len() > 0,
        0 <= n <= t.len(),
        t.skip(n) == b,
        0 <= i <= b.len(),
    ensures
        replace_from(t, p, q, n + i) == replace_from(b, p, q, i),
    decreases b.len() - i,
{
    lemma_find_from(b, p, i);
    lemma_find_from(t, p, n + i);
    assert forall|j: int| 0 <= j implies occurs_at(t, p, n + j)
        == #[trigger] occurs_at(b, p, j) by {
        if j + p.len() <= b.len() {
            assert(t.subrange(n + j, n + j + p.len()) =~= b.subrange(j, j + p.len()));
        }
    }
    match find_from(b, p, i) {
        Some(k) => {
            assert(occurs_at(b, p, k));
            assert forall|j: int| n + i <= j < n + k implies !occurs_at(t, p, j) by {
                assert(occurs_at(t, p, n + (j - n)) == occurs_at(
                    b,
                    p,
                    j - n,
                ));
            }
            lemma_find_from_is(t, p, n + i, n + k);
            lemma_replace_shift(t, b, p, q, n, k + p.len());
            assert(t.subrange(n + i, n + k) =~= b.subrange(i, k));
        },
        None => {
            assert forall|j: int| n + i <= j implies !occurs_at(t, p, j) by {
                assert(occurs_at(t, p, n + (j - n)) == occurs_at(
                    b,
                    p,
                    j - n,
                ));
            }
            lemma_find_from_none(t, p, n + i);
            assert(t.skip(n + i) =~= b.skip(i));
        },
    }
}

/// Joining puts the parts one after the other with the separator between each
/// two: cut off the last part and its separator, and the others are joined.
pub proof fn law_join_holds_the_parts(parts: Seq<Seq<char>>, sep: Seq<char>, more: Seq<char>)
    ensures
        join(Seq::<Seq<char>>::empty(), sep).len() == 0,
        join(seq![more], sep) == more,
        parts.len() > 0 ==> join(parts.push(more), sep) == join(parts, sep) + sep + more,
{
    assert(parts.push(more).drop_last() =~= parts);
}

/// Every part stands in what they are joined to.
pub proof fn law_parts_stand_in_their_join(parts: Seq<Seq<char>>, sep: Seq<char>, i: int)
    requires
        0 <= i < parts.len(),
    ensures
        contains(join(parts, sep), parts[i]),
    decreases parts.len(),
{
    let less = parts.drop_last();
    let e = Seq::<char>::empty();
    if parts.len() == 1 {
        assert(parts =~= seq![parts[0]]);
        law_join_holds_the_parts(less, sep, parts[0]);
        lemma_stands_between(e, parts[0], e);
        assert(e + parts[0] + e =~= parts[0]);
    } else {
        law_join_holds_the_parts(less, sep, parts.last());
        assert(less.push(parts.last()) =~= parts);
        let whole = join(parts, sep);
        if i < less.len() {
            law_parts_stand_in_their_join(less, sep, i);
            let k = choose|k: int| occurs_at(join(less, sep), less[i], k);
            assert(whole.subrange(k, k + parts[i].len()) =~= join(less, sep).subrange(
                k,
                k + parts[i].len(),
            ));
            assert(occurs_at(whole, parts[i], k));
        } else {
            lemma_stands_between(join(less, sep) + sep, parts.last(), e);
            assert(join(less, sep) + sep + parts.last() + e =~= whole);
        }
    }
}

} // verus!
