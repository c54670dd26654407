//! Stop strings.
use vstd::prelude::*;
use crate::bytes::byte_len_of;
use crate::bytes::byte_len;
use crate::text::{chars_of, find_chars, string_of};
use crate::text::{contains, find, lemma_find_from, occurs_at, views};

verus! {

/// Looks for stop strings in a text that arrives in pieces.
#[derive(Debug)]
pub struct StopPredicate {
    accumulated: String,
    stops: Vec<String>,
}

/// What a [`StopPredicate`] holds: the text so far and the stop strings.
pub struct StopModel {
    pub accumulated: Seq<char>,
    pub stops: Seq<Seq<char>>,
}

impl View for StopPredicate {
    type V = StopModel;

    closed spec fn view(&self) -> StopModel {
        StopModel { accumulated: self.accumulated@, stops: views(self.stops@) }
    }
}

/// What came of one piece of text.
#[derive(Debug, PartialEq, Eq)]
pub enum StopOutcome {
    /// No stop string stands in the text so far.
    Pass,
    /// `matched` does; `safe_prefix` is the part of the piece before it.
    Fire { safe_prefix: String, matched: String },
}

/// What a [`StopOutcome`] says.
pub enum OutcomeView {
    Pass,
    Fire { safe_prefix: Seq<char>, matched: Seq<char> },
}

impl View for StopOutcome {
    type V = OutcomeView;

    open spec fn view(&self) -> OutcomeView {
        match *self {
            StopOutcome::Pass => OutcomeView::Pass,
            StopOutcome::Fire { safe_prefix, matched } => OutcomeView::Fire {
                safe_prefix: safe_prefix@,
                matched: matched@,
            },
        }
    }
}

/// Whether the strings stand longest first, by length in bytes.
pub open spec fn longest_first(s: Seq<Seq<char>>) -> bool {
    forall|i: int, j: int|
        0 <= i <= j < s.len() ==> byte_len(#[trigger] s[i]) >= byte_len(#[trigger] s[j])
}

/// The strings of `s` that are `n` bytes long, in their order.
pub open spec fn of_len(s: Seq<Seq<char>>, n: nat) -> Seq<Seq<char>> {
    s.filter(|x: Seq<char>| byte_len(x) == n)
}

/// Whether `r` is `s` sorted longest first, strings of one length keeping
/// their order.
pub open spec fn sorted_by_len(s: Seq<Seq<char>>, r: Seq<Seq<char>>) -> bool {
    &&& longest_first(r)
    &&& forall|n: nat| #[trigger] of_len(r, n) == of_len(s, n)
    &&& r.len() == s.len()
}

/// Where the first of the first `n` stop strings stands in `text`, and which
/// one it is: the one that stands earliest; of two that stand at one place the
/// one listed first.
pub open spec fn first_stop(stops: Seq<Seq<char>>, text: Seq<char>, n: nat) -> Option<(int, int)>
    decreases n,
{
    if n == 0 || n > stops.len() {
        None
    } else {
        let best = first_stop(stops, text, (n - 1) as nat);
        match (best, find(text, stops[n - 1])) {
            (Some(b), Some(p)) => if b.0 <= p {
                Some(b)
            } else {
                Some((p, n - 1))
            },
            (None, Some(p)) => Some((p, n - 1)),
            (b, None) => b,
        }
    }
}

impl StopModel {
    /// The state after one more piece.
    pub open spec fn fed(self, delta: Seq<char>) -> StopModel {
        StopModel { accumulated: self.accumulated + delta, stops: self.stops }
    }

    /// What comes of one more piece.
    pub open spec fn outcome(self, delta: Seq<char>) -> OutcomeView {
        let text = self.accumulated + delta;
        match first_stop(self.stops, text, self.stops.len()) {
            None => OutcomeView::Pass,
            Some((pos, k)) => OutcomeView::Fire {
                safe_prefix: if pos > self.accumulated.len() {
                    text.subrange(self.accumulated.len() as int, pos)
                } else {
                    Seq::empty()
                },
                matched: self.stops[k],
            },
        }
    }
}

/// What [`first_stop`] returns is the first stop string in the text.
pub proof fn lemma_first_stop(stops: Seq<Seq<char>>, text: Seq<char>, n: nat)
    requires
        n <= stops.len(),
    ensures
        match first_stop(stops, text, n) {
            Some((p, k)) => {
                &&& 0 <= k < n
                &&& occurs_at(text, stops[k], p)
                &&& forall|j: int, q: int|
                    0 <= j < n && #[trigger] occurs_at(text, stops[j], q) ==> p <= q && (p == q
                        ==> k <= j)
            },
            None => forall|j: int, q: int|
                0 <= j < n ==> !#[trigger] occurs_at(text, stops[j], q),
        },
    decreases n,
{
    if n > 0 {
        lemma_first_stop(stops, text, (n - 1) as nat);
        lemma_find_from(text, stops[n - 1], 0);
    }
}

impl StopPredicate {
    /// Sorts the stop strings longest first.
    pub fn new(stops: Vec<String>) -> (r: StopPredicate)
        ensures
            r@.accumulated == Seq::<char>::empty(),
            sorted_by_len(views(stops@), r@.stops),
    {
        let mut sorted: Vec<String> = Vec::new();
        let mut i: usize = 0;
        assert(views(sorted@) =~= views(stops@.take(0)));
        while i < stops.len()
            invariant
                i <= stops@.len(),
                sorted_by_len(views(stops@.take(i as int)), views(sorted@)),
            decreases stops@.len() - i,
        {
            let x = stops[i].clone();
            let n = byte_len_of(x.as_str());
            let mut k: usize = 0;
            while k < sorted.len() && byte_len_of(sorted[k].as_str()) >= n
                invariant
                    k <= sorted@.len(),
                    n == byte_len(x@),
                    forall|j: int| 0 <= j < k ==> byte_len(#[trigger] views(sorted@)[j]) >= n,
                decreases sorted@.len() - k,
            {
                assert(views(sorted@)[k as int] == sorted@[k as int]@);
                k += 1;
            }
            let ghost before = views(sorted@);
            let ghost read = views(stops@.take(i as int));
            proof {
                if k < sorted@.len() {
                    assert(before[k as int] == sorted@[k as int]@);
                }
            }
            sorted.insert(k, x);
            proof {
                lemma_insert_by_len(read, before, x@, k as int);
                assert(views(sorted@) =~= before.insert(k as int, x@));
                assert(views(stops@.take(i + 1)) =~= read.push(x@));
            }
            i += 1;
        }
        assert(stops@.take(i as int) =~= stops@);
        StopPredicate { accumulated: String::new(), stops: sorted }
    }

    /// Whether there is no stop string.
    pub fn is_empty(&self) -> (r: bool)
        ensures
            r == (self@.stops.len() == 0),
    {
        self.stops.len() == 0
    }

    /// Takes one more piece of text.
    pub fn feed(&mut self, delta: &str) -> (r: StopOutcome)
        ensures
            final(self)@ == old(self)@.fed(delta@),
            r@ == old(self)@.outcome(delta@),
    {
        let already = chars_of(self.accumulated.as_str()).len();
        self.accumulated.append(delta);
        let text = chars_of(self.accumulated.as_str());
        let mut best: Option<(usize, usize)> = None;
        let mut i: usize = 0;
        while i < self.stops.len()
            invariant
                i <= self.stops@.len(),
                text@ == old(self)@.accumulated + delta@,
                self@ == old(self)@.fed(delta@),
                match best {
                    Some((p, k)) => first_stop(self@.stops, text@, i as nat) == Some(
                        (p as int, k as int),
                    ) && p <= text@.len() && k < i,
                    None => first_stop(self@.stops, text@, i as nat) is None,
                },
            decreases self.stops@.len() - i,
        {
            let stop = chars_of(self.stops[i].as_str());
            assert(self@.stops[i as int] == stop@);
            match find_chars(&text, &stop, 0) {
                Some(p) => {
                    let later = match best {
                        Some(b) => b.0 <= p,
                        None => false,
                    };
                    if !later {
                        best = Some((p, i));
                    }
                },
                None => {},
            }
            i += 1;
        }
        match best {
            Some((pos, k)) => {
                let safe_prefix = if pos > already {
                    string_of(&text, already, pos)
                } else {
                    String::new()
                };
                assert(self@.stops[k as int] == self.stops@[k as int]@);
                StopOutcome::Fire { safe_prefix, matched: self.stops[k].clone() }
            },
            None => StopOutcome::Pass,
        }
    }
}

/// Inserting after all strings that are at least as long keeps the order.
proof fn lemma_insert_by_len(read: Seq<Seq<char>>, s: Seq<Seq<char>>, x: Seq<char>, k: int)
    requires
        sorted_by_len(read, s),
        0 <= k <= s.len(),
        forall|j: int| 0 <= j < k ==> byte_len(#[trigger] s[j]) >= byte_len(x),
        k < s.len() ==> byte_len(s[k]) < byte_len(x),
    ensures
        sorted_by_len(read.push(x), s.insert(k, x)),
{
    let r = s.insert(k, x);
    assert forall|i: int, j: int| 0 <= i <= j < r.len() implies byte_len(#[trigger] r[i])
        >= byte_len(#[trigger] r[j]) by {
        let si = if i < k {
            i
        } else {
            i - 1
        };
        let sj = if j < k {
            j
        } else {
            j - 1
        };
        if i != k && j != k {
            assert(byte_len(s[si]) >= byte_len(s[sj]));
        } else if i == k && j > k {
            assert(byte_len(s[k]) >= byte_len(s[sj]));
        }
    }
    assert forall|n: nat| #[trigger] of_len(r, n) == of_len(read.push(x), n) by {
        let p = |y: Seq<char>| byte_len(y) == n;
        assert(of_len(s, n) == of_len(read, n));
        assert(r =~= s.take(k) + seq![x] + s.skip(k));
        assert(s =~= s.take(k) + s.skip(k));
        assert(read.push(x) =~= read + seq![x]);
        Seq::filter_distributes_over_add(s.take(k), s.skip(k), p);
        Seq::filter_distributes_over_add(s.take(k) + seq![x], s.skip(k), p);
        Seq::filter_distributes_over_add(s.take(k), seq![x], p);
        Seq::filter_distributes_over_add(read, seq![x], p);
        let one = seq![x];
        reveal_with_fuel(Seq::filter, 2);
        assert(one.drop_last() =~= Seq::<Seq<char>>::empty());
        if n == byte_len(x) {
            assert forall|j: int| 0 <= j < s.skip(k).len() implies !p(#[trigger] s.skip(k)[j]) by {
                assert(byte_len(s[k]) >= byte_len(s[k + j]));
            }
            lemma_filter_none(s.skip(k), p);
            assert(s.take(k).filter(p) + Seq::<Seq<char>>::empty() =~= s.take(k).filter(p));
            assert(s.take(k).filter(p) + one.filter(p) + Seq::<Seq<char>>::empty() =~= s.take(
                k,
            ).filter(p) + one.filter(p));
        } else {
            assert(one.filter(p) =~= Seq::<Seq<char>>::empty());
            assert(s.take(k).filter(p) + Seq::<Seq<char>>::empty() =~= s.take(k).filter(p));
            assert(read.filter(p) + Seq::<Seq<char>>::empty() =~= read.filter(p));
        }
    }
}

/// Filtering by a condition that nothing meets.
proof fn lemma_filter_none(s: Seq<Seq<char>>, p: spec_fn(Seq<char>) -> bool)
    requires
        forall|j: int| 0 <= j < s.len() ==> !p(#[trigger] s[j]),
    ensures
        s.filter(p) == Seq::<Seq<char>>::empty(),
    decreases s.len(),
{
    reveal(Seq::filter);
    if s.len() > 0 {
        assert forall|j: int| 0 <= j < s.drop_last().len() implies !p(
            #[trigger] s.drop_last()[j],
        ) by {
            assert(!p(s[j]));
        }
        lemma_filter_none(s.drop_last(), p);
        assert(!p(s[s.len() - 1]));
    }
}

/// The stop string that fires is the one that stands earliest in the text; of
/// those that stand there too, where stop strings are listed longest first, it
/// is a longest.
pub proof fn law_first_stop_fires(m: StopModel, delta: Seq<char>)
    requires
        longest_first(m.stops),
        m.outcome(delta) is Fire,
    ensures
        ({
            let text = m.accumulated + delta;
            let matched = m.outcome(delta)->matched;
            let (p, k) = first_stop(m.stops, text, m.stops.len())->0;
            &&& occurs_at(text, matched, p)
            &&& forall|j: int, q: int|
                0 <= j < m.stops.len() && #[trigger] occurs_at(text, m.stops[j], q) ==> p <= q && (p
                    == q ==> byte_len(m.stops[j]) <= byte_len(matched))
        }),
{
    lemma_first_stop(m.stops, m.accumulated + delta, m.stops.len());
}

/// A stop string fires exactly when one stands in the text so far.
pub proof fn law_fires_iff_present(m: StopModel, delta: Seq<char>)
    ensures
        m.outcome(delta) is Fire <==> exists|j: int|
            0 <= j < m.stops.len() && contains(m.accumulated + delta, #[trigger] m.stops[j]),
{
    let text = m.accumulated + delta;
    lemma_first_stop(m.stops, text, m.stops.len());
    match first_stop(m.stops, text, m.stops.len()) {
        Some((p, k)) => {
            assert(contains(text, m.stops[k]));
        },
        None => {},
    }
}

/// What was let through holds no stop string: the text of the earlier pieces,
/// in which none stood, and the safe prefix.
pub proof fn law_stop_is_trimmed(m: StopModel, delta: Seq<char>, j: int)
    requires
        forall|j: int| 0 <= j < m.stops.len() ==> !contains(m.accumulated, #[trigger] m.stops[j]),
        m.outcome(delta) is Fire,
        0 <= j < m.stops.len(),
    ensures
        !contains(m.accumulated + m.outcome(delta)->safe_prefix, m.stops[j]),
{
    let text = m.accumulated + delta;
    lemma_first_stop(m.stops, text, m.stops.len());
    let (pos, k) = first_stop(m.stops, text, m.stops.len())->0;
    let stop = m.stops[j];
    let safe = m.outcome(delta)->safe_prefix;
    let passed = m.accumulated + safe;
    if stop.len() == 0 {
        assert(m.accumulated.subrange(0, 0) =~= stop);
        assert(occurs_at(m.accumulated, stop, 0));
        assert(contains(m.accumulated, stop));
    }
    if pos > m.accumulated.len() {
        assert(passed =~= text.take(pos));
        assert forall|i: int| !occurs_at(passed, stop, i) by {
            if occurs_at(passed, stop, i) {
                assert(text.subrange(i, i + stop.len()) =~= passed.subrange(i, i + stop.len()));
                assert(occurs_at(text, stop, i));
            }
        }
    } else {
        assert(passed =~= m.accumulated);
    }
}

} // verus!
