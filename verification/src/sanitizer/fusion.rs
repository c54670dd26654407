//! However a text is cut into chunks, the same goes out.
use vstd::prelude::*;
use crate::bytes::{
    byte_len, chars_within, lemma_byte_len_add, lemma_byte_len_bounds, lemma_byte_len_take,
    lemma_chars_within,
};
use crate::sanitizer::{
    after, earliest, lemma_earliest, lemma_next_action, max_len, next_action, none_empty,
    release, sanitized, scan, stream, Action, Hit, Scan, TagKind,
};
use crate::text::{
    concat_all, contains, find, lemma_find_from, lemma_find_from_is, lemma_find_from_none, occurs_at,
};
use crate::tools::MarkerView;

verus! {

/// All the markers.
pub open spec fn all_tags(m: MarkerView) -> Seq<Seq<char>> {
    m.orphan_open + m.close + m.envelope_open + m.envelope_close
}

/// No marker stands in another.
pub open spec fn apart(m: MarkerView) -> bool {
    forall|i: int, j: int|
        #![trigger all_tags(m)[i], all_tags(m)[j]]
        0 <= i < all_tags(m).len() && 0 <= j < all_tags(m).len() && contains(
            all_tags(m)[i],
            all_tags(m)[j],
        ) ==> all_tags(m)[i] == all_tags(m)[j]
}

/// One of the markers.
spec fn is_tag(m: MarkerView, t: Seq<char>) -> bool {
    exists|i: int| 0 <= i < all_tags(m).len() && #[trigger] all_tags(m)[i] == t
}

/// The tags of a list are markers.
spec fn are_tags(m: MarkerView, tags: Seq<Seq<char>>) -> bool {
    forall|i: int| 0 <= i < tags.len() ==> is_tag(m, #[trigger] tags[i])
}

proof fn lemma_are_tags(m: MarkerView)
    ensures
        are_tags(m, m.orphan_open),
        are_tags(m, m.close),
        are_tags(m, m.envelope_open),
        are_tags(m, m.envelope_close),
{
    let all = all_tags(m);
    let a = m.orphan_open.len() as int;
    let b = m.close.len() as int;
    let c = m.envelope_open.len() as int;
    assert forall|i: int| 0 <= i < m.orphan_open.len() implies is_tag(
        m,
        #[trigger] m.orphan_open[i],
    ) by {
        assert(all[i] == m.orphan_open[i]);
    }
    assert forall|i: int| 0 <= i < m.close.len() implies is_tag(m, #[trigger] m.close[i]) by {
        assert(all[a + i] == m.close[i]);
    }
    assert forall|i: int| 0 <= i < m.envelope_open.len() implies is_tag(
        m,
        #[trigger] m.envelope_open[i],
    ) by {
        assert(all[a + b + i] == m.envelope_open[i]);
    }
    assert forall|i: int| 0 <= i < m.envelope_close.len() implies is_tag(
        m,
        #[trigger] m.envelope_close[i],
    ) by {
        assert(all[a + b + c + i] == m.envelope_close[i]);
    }
}

proof fn lemma_apart(m: MarkerView, t: Seq<char>, u: Seq<char>)
    requires
        apart(m),
        is_tag(m, t),
        is_tag(m, u),
        contains(t, u),
    ensures
        t == u,
{
    let i = choose|i: int| 0 <= i < all_tags(m).len() && #[trigger] all_tags(m)[i] == t;
    let j = choose|j: int| 0 <= j < all_tags(m).len() && #[trigger] all_tags(m)[j] == u;
    assert(contains(all_tags(m)[i], all_tags(m)[j]));
}

proof fn lemma_max_len(tags: Seq<Seq<char>>, i: int)
    requires
        0 <= i < tags.len(),
    ensures
        byte_len(tags[i]) <= max_len(tags),
    decreases tags.len(),
{
    if i < tags.len() - 1 {
        lemma_max_len(tags.drop_last(), i);
    }
}

proof fn lemma_longest(m: MarkerView, t: Seq<char>)
    requires
        is_tag(m, t),
    ensures
        byte_len(t) <= m.longest(),
{
    let i = choose|i: int| 0 <= i < all_tags(m).len() && #[trigger] all_tags(m)[i] == t;
    let a = m.orphan_open.len() as int;
    let b = m.close.len() as int;
    let c = m.envelope_open.len() as int;
    if i < a {
        assert(t == m.orphan_open[i]);
        lemma_max_len(m.orphan_open, i);
    } else if i < a + b {
        assert(t == m.close[i - a]);
        lemma_max_len(m.close, i - a);
    } else if i < a + b + c {
        assert(t == m.envelope_open[i - a - b]);
        lemma_max_len(m.envelope_open, i - a - b);
    } else {
        assert(t == m.envelope_close[i - a - b - c]);
        lemma_max_len(m.envelope_close, i - a - b - c);
    }
}

// ---------------------------------------------------------------------------
// A tag that was found stays the one that is found
// ---------------------------------------------------------------------------
/// Up to `p` the two findings are one.
spec fn agree(a: Option<int>, b: Option<int>, p: int) -> bool {
    (a matches Some(i) && i <= p) || (b matches Some(j) && j <= p) ==> a == b
}

/// Up to `p` the two findings are one.
spec fn hits_agree(a: Option<Hit>, b: Option<Hit>, p: int) -> bool {
    (a matches Some(i) && i.pos <= p) || (b matches Some(j) && j.pos <= p) ==> a == b
}

proof fn lemma_within(x: Seq<char>, y: Seq<char>, t: Seq<char>, q: int)
    ensures
        q + t.len() <= x.len() ==> occurs_at(x, t, q) == occurs_at(x + y, t, q),
{
    if 0 <= q && q + t.len() <= x.len() {
        assert(x.subrange(q, q + t.len()) =~= (x + y).subrange(q, q + t.len()));
    }
}

proof fn lemma_find_agrees(
    m: MarkerView,
    x: Seq<char>,
    y: Seq<char>,
    t: Seq<char>,
    u: Seq<char>,
    p: int,
)
    requires
        apart(m),
        is_tag(m, t),
        is_tag(m, u),
        occurs_at(x, u, p),
    ensures
        agree(find(x, t), find(x + y, t), p),
{
    let z = x + y;
    lemma_find_from(x, t, 0);
    lemma_find_from(z, t, 0);
    assert forall|q: int| q <= p && #[trigger] occurs_at(z, t, q) implies occurs_at(x, t, q) by {
        if q + t.len() > x.len() {
            assert(t.subrange(p - q, p - q + u.len()) =~= x.subrange(p, p + u.len())) by {
                assert(z.subrange(q, q + t.len()) == t);
                assert forall|k: int| 0 <= k < u.len() implies t[p - q + k] == #[trigger] x.subrange(
                    p,
                    p + u.len(),
                )[k] by {
                    assert(t[p - q + k] == z.subrange(q, q + t.len())[p - q + k]);
                }
            }
            assert(occurs_at(t, u, p - q));
            lemma_apart(m, t, u);
        }
        lemma_within(x, y, t, q);
    }
    assert forall|q: int| #[trigger] occurs_at(x, t, q) implies occurs_at(z, t, q) by {
        lemma_within(x, y, t, q);
    }
}

proof fn lemma_earliest_agrees(
    m: MarkerView,
    tags: Seq<Seq<char>>,
    x: Seq<char>,
    y: Seq<char>,
    u: Seq<char>,
    p: int,
    i: int,
)
    requires
        apart(m),
        are_tags(m, tags),
        is_tag(m, u),
        occurs_at(x, u, p),
        0 <= i,
    ensures
        hits_agree(earliest(tags, x, i), earliest(tags, x + y, i), p),
    decreases tags.len() - i,
{
    if i < tags.len() {
        lemma_earliest_agrees(m, tags, x, y, u, p, i + 1);
        assert(is_tag(m, tags[i]));
        lemma_find_agrees(m, x, y, tags[i], u, p);
    }
}

/// The marker that a finding is of.
proof fn lemma_hit_tag(m: MarkerView, tags: Seq<Seq<char>>, x: Seq<char>) -> (u: Seq<char>)
    requires
        are_tags(m, tags),
        none_empty(tags),
        earliest(tags, x, 0) is Some,
    ensures
        is_tag(m, u),
        occurs_at(x, u, (earliest(tags, x, 0)->0).pos),
        u.len() == (earliest(tags, x, 0)->0).len,
        0 < u.len(),
{
    lemma_earliest(tags, x, 0);
    let h = earliest(tags, x, 0)->0;
    let j = choose|j: int|
        0 <= j < tags.len() && h.len == (#[trigger] tags[j]).len() && occurs_at(x, tags[j], h.pos);
    tags[j]
}

/// The tag that is acted on does not depend on what follows it.
proof fn lemma_action_stays(m: MarkerView, x: Seq<char>, y: Seq<char>, inside: bool)
    requires
        m.wf(),
        apart(m),
        next_action(m, x, inside) is Some,
    ensures
        next_action(m, x + y, inside) == next_action(m, x, inside),
{
    lemma_are_tags(m);
    let a = next_action(m, x, inside)->0;
    let u = match a.kind {
        TagKind::EnvelopeOpen => lemma_hit_tag(m, m.envelope_open, x),
        TagKind::EnvelopeClose => lemma_hit_tag(m, m.envelope_close, x),
        TagKind::OrphanOpen => lemma_hit_tag(m, m.orphan_open, x),
        TagKind::OrphanClose => lemma_hit_tag(m, m.close, x),
    };
    let p = a.hit.pos;
    lemma_earliest_agrees(m, m.envelope_open, x, y, u, p, 0);
    lemma_earliest_agrees(m, m.envelope_close, x, y, u, p, 0);
    lemma_earliest_agrees(m, m.orphan_open, x, y, u, p, 0);
    lemma_earliest_agrees(m, m.close, x, y, u, p, 0);
}

// ---------------------------------------------------------------------------
// A text without a tag can be let go of
// ---------------------------------------------------------------------------
/// The finding, further on.
spec fn moved(a: Option<int>, by: int) -> Option<int> {
    match a {
        Some(i) => Some(i + by),
        None => None,
    }
}

/// The finding, further on.
spec fn hit_moved(a: Option<Hit>, by: int) -> Option<Hit> {
    match a {
        Some(h) => Some(Hit { pos: h.pos + by, ..h }),
        None => None,
    }
}

/// The finding, further on.
spec fn action_moved(a: Option<Action>, by: int) -> Option<Action> {
    match a {
        Some(x) => Some(Action { hit: Hit { pos: x.hit.pos + by, ..x.hit }, ..x }),
        None => None,
    }
}

/// What stays of a buffer after its release: enough that a tag which goes on
/// behind it begins in what stays.
proof fn lemma_stays(x: Seq<char>, hold: nat)
    ensures
        0 <= release(x, hold) <= x.len(),
        release(x, hold) > 0 ==> byte_len(x.skip(release(x, hold))) >= hold && release(x, hold)
            < x.len(),
        forall|q: int|
            0 <= q < release(x, hold) ==> byte_len(#[trigger] x.skip(q)) > hold,
{
    lemma_byte_len_bounds(x);
    if byte_len(x) > hold {
        let n = byte_len(x) - hold;
        assert(x.take(0) =~= Seq::<char>::empty());
        lemma_chars_within(x, n, 0);
        let r = release(x, hold);
        let k = chars_within(x, n, 0);
        lemma_byte_len_take(x, r, k);
        lemma_byte_len_take(x, r, r);
        assert forall|q: int| 0 <= q < r implies byte_len(#[trigger] x.skip(q)) > hold by {
            lemma_byte_len_take(x, q, r);
            lemma_byte_len_take(x, q, q);
        }
    }
}

proof fn lemma_find_moves(m: MarkerView, x: Seq<char>, y: Seq<char>, t: Seq<char>)
    requires
        is_tag(m, t),
        t.len() > 0,
        !contains(x, t),
    ensures
        ({
            let r = release(x, m.hold());
            find(x + y, t) == moved(find(x.skip(r) + y, t), r)
        }),
{
    let r = release(x, m.hold());
    let all = x + y;
    let z = x.skip(r) + y;
    lemma_stays(x, m.hold());
    lemma_longest(m, t);
    lemma_byte_len_bounds(t);
    lemma_find_from(z, t, 0);
    assert forall|q: int| #[trigger] occurs_at(all, t, q) implies q >= r by {
        if q + t.len() <= x.len() {
            lemma_within(x, y, t, q);
        } else if q < r {
            let part = x.skip(q);
            let more = t.skip(part.len() as int);
            assert(t =~= part + more) by {
                assert forall|k: int| 0 <= k < t.len() implies t[k] == (part + more)[k] by {
                    assert(all.subrange(q, q + t.len())[k] == all[q + k]);
                }
            }
            lemma_byte_len_add(part, more);
            lemma_byte_len_bounds(more);
        }
    }
    assert forall|q: int| occurs_at(all, t, q + r) == #[trigger] occurs_at(z, t, q) || q < 0 by {
        if 0 <= q && q + t.len() <= z.len() {
            assert(all.subrange(q + r, q + r + t.len()) =~= z.subrange(q, q + t.len()));
        }
    }
    match find(z, t) {
        Some(i) => {
            assert forall|j: int| 0 <= j < i + r implies !occurs_at(all, t, j) by {
                if occurs_at(all, t, j) {
                    assert(occurs_at(all, t, (j - r) + r) == occurs_at(z, t, j - r) || j - r < 0);
                }
            }
            assert(occurs_at(all, t, i + r) == occurs_at(z, t, i) || i < 0);
            lemma_find_from_is(all, t, 0, i + r);
        },
        None => {
            assert forall|j: int| 0 <= j implies !occurs_at(all, t, j) by {
                if occurs_at(all, t, j) {
                    assert(occurs_at(all, t, (j - r) + r) == occurs_at(z, t, j - r) || j - r < 0);
                }
            }
            lemma_find_from_none(all, t, 0);
        },
    }
}

proof fn lemma_earliest_moves(
    m: MarkerView,
    tags: Seq<Seq<char>>,
    x: Seq<char>,
    y: Seq<char>,
    i: int,
)
    requires
        are_tags(m, tags),
        none_empty(tags),
        forall|j: int| 0 <= j < tags.len() ==> !contains(x, #[trigger] tags[j]),
        0 <= i,
    ensures
        ({
            let r = release(x, m.hold());
            earliest(tags, x + y, i) == hit_moved(earliest(tags, x.skip(r) + y, i), r)
        }),
    decreases tags.len() - i,
{
    if i < tags.len() {
        lemma_earliest_moves(m, tags, x, y, i + 1);
        assert(is_tag(m, tags[i]));
        assert(tags[i].len() > 0);
        lemma_find_moves(m, x, y, tags[i]);
    }
}

/// What is released of a text is released of what stayed of its beginning,
/// with the rest behind it.
proof fn lemma_release_adds(x: Seq<char>, y: Seq<char>, hold: nat)
    ensures
        ({
            let r = release(x, hold);
            release(x + y, hold) == r + release(x.skip(r) + y, hold)
        }),
{
    let r = release(x, hold);
    let all = x + y;
    let z = x.skip(r) + y;
    lemma_stays(x, hold);
    if r == 0 {
        assert(x.skip(0) =~= x);
    } else {
        assert(all =~= x.take(r) + z);
        lemma_byte_len_add(x.take(r), z);
        lemma_byte_len_add(x.skip(r), y);
        lemma_byte_len_bounds(y);
        lemma_byte_len_bounds(x.take(r));
        let n = byte_len(all) - hold;
        assert(all.take(0) =~= Seq::<char>::empty());
        lemma_chars_within(all, n, 0);
        let k = chars_within(all, n, 0);
        if byte_len(z) <= hold {
            // Nothing more is released: what stayed is all there is to hold.
            assert(all.take(r) =~= x.take(r));
            if k > r {
                lemma_byte_len_take(all, r, k);
            } else if k < r {
                lemma_byte_len_take(all, k + 1, r);
            }
            assert(r < all.len());
        } else {
            let nz = byte_len(z) - hold;
            assert(z.take(0) =~= Seq::<char>::empty());
            lemma_chars_within(z, nz, 0);
            let kz = chars_within(z, nz, 0);
            assert(all.take(r + kz) =~= x.take(r) + z.take(kz));
            lemma_byte_len_add(x.take(r), z.take(kz));
            if k > r + kz {
                assert(all.take(r + kz + 1) =~= x.take(r) + z.take(kz + 1));
                lemma_byte_len_add(x.take(r), z.take(kz + 1));
                lemma_byte_len_take(all, r + kz + 1, k);
            } else if k < r + kz {
                lemma_byte_len_take(all, k + 1, r + kz);
            }
        }
    }
}

// ---------------------------------------------------------------------------
// Cutting a text in two
// ---------------------------------------------------------------------------
proof fn lemma_action_moves(m: MarkerView, x: Seq<char>, y: Seq<char>, inside: bool)
    requires
        m.wf(),
        next_action(m, x, inside) is None,
    ensures
        ({
            let r = release(x, m.hold());
            next_action(m, x + y, inside) == action_moved(
                next_action(m, x.skip(r) + y, inside),
                r,
            )
        }),
{
    lemma_are_tags(m);
    lemma_next_action(m, x, inside);
    lemma_earliest_moves(m, m.envelope_open, x, y, 0);
    lemma_earliest_moves(m, m.envelope_close, x, y, 0);
    if !inside {
        lemma_earliest_moves(m, m.orphan_open, x, y, 0);
        lemma_earliest_moves(m, m.close, x, y, 0);
    }
}

/// While a leak is dropped, a beginning without a closer can be let go of.
proof fn lemma_dropped_splits(m: MarkerView, x: Seq<char>, y: Seq<char>, inside: bool)
    requires
        m.wf(),
        earliest(m.close, x, 0) is None,
    ensures
        scan(m, x + y, true, inside) == scan(
            m,
            x.skip(release(x, m.hold())) + y,
            true,
            inside,
        ),
{
    let all = x + y;
    let r = release(x, m.hold());
    let z = x.skip(r) + y;
    lemma_are_tags(m);
    lemma_stays(x, m.hold());
    lemma_stays(z, m.hold());
    lemma_earliest(m.close, x, 0);
    lemma_earliest(m.close, z, 0);
    lemma_earliest_moves(m, m.close, x, y, 0);
    lemma_release_adds(x, y, m.hold());
    match earliest(m.close, z, 0) {
        Some(h) => {
            assert(all.skip(h.pos + r + h.len) =~= z.skip(h.pos + h.len));
        },
        None => {
            assert(all.skip(r + release(z, m.hold())) =~= z.skip(release(z, m.hold())));
        },
    }
}

/// Whether a leak is dropped, and whether the text is inside an envelope,
/// behind a tag.
spec fn next_state(kind: TagKind, inside: bool) -> (bool, bool) {
    match kind {
        TagKind::EnvelopeOpen => (false, true),
        TagKind::EnvelopeClose => (false, false),
        TagKind::OrphanOpen => (true, inside),
        TagKind::OrphanClose => (false, inside),
    }
}

/// How much of a text goes out up to a tag.
spec fn goes_out(a: Action) -> int {
    match a.kind {
        TagKind::EnvelopeOpen | TagKind::EnvelopeClose => a.hit.pos + a.hit.len,
        TagKind::OrphanOpen | TagKind::OrphanClose => a.hit.pos,
    }
}

/// A scan acts on the next tag and goes on behind it.
proof fn lemma_scan_acts(m: MarkerView, x: Seq<char>, inside: bool)
    requires
        m.wf(),
        next_action(m, x, inside) is Some,
    ensures
        ({
            let a = next_action(m, x, inside)->0;
            let (supp, ins) = next_state(a.kind, inside);
            scan(m, x, false, inside) == after(
                x.take(goes_out(a)),
                scan(m, x.skip(a.hit.pos + a.hit.len), supp, ins),
            )
        }),
{
}

/// Without a tag, a scan gives out what is not held back.
proof fn lemma_scan_rests(m: MarkerView, x: Seq<char>, inside: bool)
    requires
        m.wf(),
        next_action(m, x, inside) is None,
    ensures
        scan(m, x, false, inside) == (Scan {
            out: x.take(release(x, m.hold())),
            buf: x.skip(release(x, m.hold())),
            suppressing: false,
            inside,
        }),
{
}

/// A beginning without a tag goes out as far as it is not held back, where no
/// tag follows.
proof fn lemma_plain_rests(m: MarkerView, x: Seq<char>, y: Seq<char>, inside: bool)
    requires
        m.wf(),
        next_action(m, x, inside) is None,
        next_action(m, x.skip(release(x, m.hold())) + y, inside) is None,
    ensures
        ({
            let r = release(x, m.hold());
            scan(m, x + y, false, inside) == after(
                x.take(r),
                scan(m, x.skip(r) + y, false, inside),
            )
        }),
{
    let all = x + y;
    let r = release(x, m.hold());
    let z = x.skip(r) + y;
    lemma_stays(x, m.hold());
    lemma_action_moves(m, x, y, inside);
    lemma_scan_rests(m, all, inside);
    lemma_scan_rests(m, z, inside);
    lemma_release_adds(x, y, m.hold());
    lemma_stays(z, m.hold());
    let k = release(z, m.hold());
    assert(all.skip(r + k) =~= z.skip(k));
    assert(all.take(r + k) =~= x.take(r) + z.take(k));
}

/// A beginning without a tag goes out as far as it is not held back, where a
/// tag follows.
proof fn lemma_plain_acts(m: MarkerView, x: Seq<char>, y: Seq<char>, inside: bool)
    requires
        m.wf(),
        next_action(m, x, inside) is None,
        next_action(m, x.skip(release(x, m.hold())) + y, inside) is Some,
    ensures
        ({
            let r = release(x, m.hold());
            scan(m, x + y, false, inside) == after(
                x.take(r),
                scan(m, x.skip(r) + y, false, inside),
            )
        }),
{
    let r = release(x, m.hold());
    let z = x.skip(r) + y;
    lemma_stays(x, m.hold());
    lemma_next_action(m, z, inside);
    lemma_action_moves(m, x, y, inside);
    let a = next_action(m, z, inside)->0;
    let b = next_action(m, x + y, inside)->0;
    lemma_scan_acts(m, x + y, inside);
    lemma_scan_acts(m, z, inside);
    lemma_acts_join(m, x, y, r, a, b, inside);
}

/// A tag that is found further on in the whole of a text does there what it
/// does in the rest of it.
proof fn lemma_acts_join(
    m: MarkerView,
    x: Seq<char>,
    y: Seq<char>,
    r: int,
    a: Action,
    b: Action,
    inside: bool,
)
    requires
        0 <= r <= x.len(),
        0 <= a.hit.pos,
        0 < a.hit.len,
        a.hit.pos + a.hit.len <= x.len() - r + y.len(),
        b.kind == a.kind,
        b.hit.pos == a.hit.pos + r,
        b.hit.len == a.hit.len,
    ensures
        ({
            let z = x.skip(r) + y;
            let (supp, ins) = next_state(a.kind, inside);
            after(
                (x + y).take(goes_out(b)),
                scan(m, (x + y).skip(b.hit.pos + b.hit.len), supp, ins),
            ) == after(
                x.take(r),
                after(z.take(goes_out(a)), scan(m, z.skip(a.hit.pos + a.hit.len), supp, ins)),
            )
        }),
{
    let z = x.skip(r) + y;
    let end = a.hit.pos + a.hit.len;
    let (supp, ins) = next_state(a.kind, inside);
    assert((x + y).skip(end + r) =~= z.skip(end));
    lemma_after_joins(x, y, r, goes_out(a), scan(m, z.skip(end), supp, ins));
}

/// What goes out before a tag, in one piece or in two.
proof fn lemma_after_joins(x: Seq<char>, y: Seq<char>, r: int, n: int, tail: Scan)
    requires
        0 <= r <= x.len(),
        0 <= n <= x.len() - r + y.len(),
    ensures
        after((x + y).take(n + r), tail) == after(
            x.take(r),
            after((x.skip(r) + y).take(n), tail),
        ),
{
    let z = x.skip(r) + y;
    assert((x + y).take(n + r) =~= x.take(r) + z.take(n));
    assert((x.take(r) + z.take(n)) + tail.out =~= x.take(r) + (z.take(n) + tail.out));
}

/// Scanning a text is scanning its beginning, and then the rest behind what
/// was held back.
#[verifier::rlimit(40)]
proof fn lemma_scan_splits(
    m: MarkerView,
    x: Seq<char>,
    y: Seq<char>,
    suppressing: bool,
    inside: bool,
)
    requires
        m.wf(),
        apart(m),
    ensures
        ({
            let s = scan(m, x, suppressing, inside);
            scan(m, x + y, suppressing, inside) == after(
                s.out,
                scan(m, s.buf + y, s.suppressing, s.inside),
            )
        }),
    decreases x.len(),
{
    let all = x + y;
    if suppressing {
        match earliest(m.close, x, 0) {
            Some(h) => {
                lemma_are_tags(m);
                lemma_earliest(m.close, x, 0);
                let u = lemma_hit_tag(m, m.close, x);
                lemma_earliest_agrees(m, m.close, x, y, u, h.pos, 0);
                let rest = x.skip(h.pos + h.len);
                assert(all.skip(h.pos + h.len) =~= rest + y);
                lemma_scan_splits(m, rest, y, false, inside);
            },
            None => {
                lemma_dropped_splits(m, x, y, inside);
                let s = scan(m, x, true, inside);
                let t = scan(m, s.buf + y, true, inside);
                assert(s.out + t.out =~= t.out);
            },
        }
    } else {
        match next_action(m, x, inside) {
            Some(a) => {
                lemma_next_action(m, x, inside);
                lemma_action_stays(m, x, y, inside);
                lemma_scan_acts(m, x, inside);
                lemma_scan_acts(m, all, inside);
                let end = a.hit.pos + a.hit.len;
                let rest = x.skip(end);
                let head = x.take(goes_out(a));
                let (supp, ins) = next_state(a.kind, inside);
                assert(all.skip(end) =~= rest + y);
                assert(all.take(goes_out(a)) =~= head);
                lemma_scan_splits(m, rest, y, supp, ins);
                let s = scan(m, rest, supp, ins);
                let t = scan(m, s.buf + y, s.suppressing, s.inside);
                assert(head + (s.out + t.out) =~= (head + s.out) + t.out);
            },
            None => {
                lemma_scan_rests(m, x, inside);
                if next_action(m, x.skip(release(x, m.hold())) + y, inside) is Some {
                    lemma_plain_acts(m, x, y, inside);
                } else {
                    lemma_plain_rests(m, x, y, inside);
                }
            },
        }
    }
}

/// Two chunks give what their concatenation gives, from any state: the same
/// goes out, and the same state stays. No marker may stand in another: of the
/// closers `</p>x` and `</p>`, listed in this order, the second is acted on
/// where a chunk ends behind it, and else the first.
pub proof fn law_chunks_fuse(m: MarkerView, s: Scan, a: Seq<char>, b: Seq<char>)
    requires
        m.wf(),
        apart(m),
    ensures
        ({
            let first = sanitized(m, a, s.buf, s.suppressing, s.inside);
            let second = sanitized(m, b, first.buf, first.suppressing, first.inside);
            sanitized(m, a + b, s.buf, s.suppressing, s.inside) == after(first.out, second)
        }),
{
    assert(s.buf + (a + b) =~= (s.buf + a) + b);
    lemma_scan_splits(m, s.buf + a, b, s.suppressing, s.inside);
}

/// However a text is cut into chunks, what goes out of the stream, and what is
/// held back after it, are those of the whole text.
pub proof fn law_cuts_do_not_count(m: MarkerView, chunks: Seq<Seq<char>>)
    requires
        m.wf(),
        apart(m),
    ensures
        stream(m, chunks) == scan(m, concat_all(chunks), false, false),
    decreases chunks.len(),
{
    if chunks.len() == 0 {
        let none = Seq::<char>::empty();
        lemma_next_action(m, none, false);
        lemma_stays(none, m.hold());
        lemma_scan_rests(m, none, false);
        assert(none.take(0) =~= none && none.skip(0) =~= none);
    } else {
        let less = chunks.drop_last();
        law_cuts_do_not_count(m, less);
        lemma_scan_splits(m, concat_all(less), chunks.last(), false, false);
    }
}

} // verus!
