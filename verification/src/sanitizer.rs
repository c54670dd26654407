//! Removing leaked tool-call tags from streamed content.
pub mod fusion;

use vstd::prelude::*;
use crate::bytes::{byte_len_of, count_within, longer_than};
use crate::bytes::{
    byte_len, chars_within, lemma_byte_len_bounds, lemma_byte_len_push, lemma_byte_len_take,
    lemma_chars_within,
};
use crate::text::{chars_of, find_chars, string_of_all, CharSet};
use crate::text::{concat_all, contains, find, lemma_find_from, occurs_at, views};
use crate::tools::LeakMarkers;
use crate::tools::MarkerView;
use crate::trim::{char_views, part, push_part, tail_of, until_of};
use crate::trim::{trim_end, until};

verus! {

/// The greatest length in bytes among `tags`, or 0.
pub open spec fn max_len(tags: Seq<Seq<char>>) -> nat
    decreases tags.len(),
{
    if tags.len() == 0 {
        0
    } else {
        let rest = max_len(tags.drop_last());
        let last = byte_len(tags.last());
        if last > rest {
            last
        } else {
            rest
        }
    }
}

/// The greater of two lengths.
pub open spec fn larger(a: nat, b: nat) -> nat {
    if a > b {
        a
    } else {
        b
    }
}

/// Whether no tag is empty.
pub open spec fn none_empty(tags: Seq<Seq<char>>) -> bool {
    forall|i: int| 0 <= i < tags.len() ==> (#[trigger] tags[i]).len() > 0
}

impl MarkerView {
    /// Whether no marker is empty.
    pub open spec fn wf(self) -> bool {
        &&& none_empty(self.orphan_open)
        &&& none_empty(self.close)
        &&& none_empty(self.envelope_open)
        &&& none_empty(self.envelope_close)
    }

    /// Whether the format opted out: nothing opens a leak or an envelope.
    pub open spec fn off(self) -> bool {
        self.orphan_open.len() == 0 && self.envelope_open.len() == 0
    }

    /// The length of the longest marker.
    pub open spec fn longest(self) -> nat {
        larger(
            larger(max_len(self.orphan_open), max_len(self.close)),
            larger(max_len(self.envelope_open), max_len(self.envelope_close)),
        )
    }

    /// How many trailing bytes are held back: one less than the longest
    /// marker, which may straddle two chunks.
    pub open spec fn hold(self) -> nat {
        if self.longest() == 0 {
            0
        } else {
            (self.longest() - 1) as nat
        }
    }

    /// Whether `s` holds no marker at all.
    pub open spec fn free_of(self, s: Seq<char>) -> bool {
        &&& tags_absent(self.orphan_open, s)
        &&& tags_absent(self.close, s)
        &&& tags_absent(self.envelope_open, s)
        &&& tags_absent(self.envelope_close, s)
    }
}

/// Whether none of the tags stands in `s`.
pub open spec fn tags_absent(tags: Seq<Seq<char>>, s: Seq<char>) -> bool {
    forall|i: int| 0 <= i < tags.len() ==> !contains(s, #[trigger] tags[i])
}

/// Where a tag stands in the buffer.
pub struct Hit {
    /// Its position.
    pub pos: int,
    /// Its length in characters.
    pub len: int,
}

/// The leftmost occurrence of one of the tags from the `i`th on; of two tags
/// at one position the one listed first.
pub open spec fn earliest(tags: Seq<Seq<char>>, buf: Seq<char>, i: int) -> Option<Hit>
    decreases tags.len() - i,
{
    if i < 0 || i >= tags.len() {
        None
    } else {
        let rest = earliest(tags, buf, i + 1);
        match find(buf, tags[i]) {
            None => rest,
            Some(p) => match rest {
                Some(h) if h.pos < p => rest,
                _ => Some(Hit { pos: p, len: tags[i].len() as int }),
            },
        }
    }
}

/// What a tag does outside suppression.
#[derive(Clone, Copy, PartialEq, Eq, Structural)]
pub enum TagKind {
    EnvelopeOpen,
    EnvelopeClose,
    OrphanOpen,
    OrphanClose,
}

/// A tag that was found, and what it does.
pub struct Action {
    pub hit: Hit,
    pub kind: TagKind,
}

/// The leftmost of two findings, the first one at equal positions.
pub open spec fn prefer(best: Option<Action>, hit: Option<Hit>, kind: TagKind) -> Option<Action> {
    match hit {
        None => best,
        Some(h) => match best {
            Some(a) if a.hit.pos <= h.pos => best,
            _ => Some(Action { hit: h, kind }),
        },
    }
}

/// The tag that is acted on next: the leftmost, an envelope's before an
/// orphan's. Inside an envelope only the envelope's own tags count.
pub open spec fn next_action(m: MarkerView, buf: Seq<char>, inside: bool) -> Option<Action> {
    let a = prefer(None, earliest(m.envelope_open, buf, 0), TagKind::EnvelopeOpen);
    let b = prefer(a, earliest(m.envelope_close, buf, 0), TagKind::EnvelopeClose);
    if inside {
        b
    } else {
        let c = prefer(b, earliest(m.orphan_open, buf, 0), TagKind::OrphanOpen);
        prefer(c, earliest(m.close, buf, 0), TagKind::OrphanClose)
    }
}

/// How many characters of a buffer without tags are let go, so that at least
/// `hold` bytes stay: up to the last character that begins at or before the
/// byte offset that leaves `hold`.
pub open spec fn release(buf: Seq<char>, hold: nat) -> int {
    if byte_len(buf) <= hold {
        0
    } else {
        let k = chars_within(buf, byte_len(buf) - hold, 0);
        if k < buf.len() {
            k
        } else {
            buf.len() - 1
        }
    }
}

/// The result of scanning: what goes out, and the state that stays.
pub struct Scan {
    pub out: Seq<char>,
    pub buf: Seq<char>,
    pub suppressing: bool,
    pub inside: bool,
}

/// Puts text in front of what goes out.
pub open spec fn after(text: Seq<char>, s: Scan) -> Scan {
    Scan { out: text + s.out, ..s }
}

/// Scans the buffer. While a leak is suppressed, everything up to and with
/// the next closing tag is dropped. Otherwise the text before the next tag
/// goes out; an envelope's tag goes out too and enters or leaves the
/// envelope; an orphan opener is dropped and starts suppression; a stray
/// closer is dropped. Without a tag all but the held tail goes out, or is
/// dropped under suppression.
pub open spec fn scan(m: MarkerView, buf: Seq<char>, suppressing: bool, inside: bool) -> Scan
    decreases buf.len(),
    when m.wf()
    via scan_decreases
{
    if suppressing {
        match earliest(m.close, buf, 0) {
            Some(h) => scan(m, buf.skip(h.pos + h.len), false, inside),
            None => Scan {
                out: Seq::empty(),
                buf: buf.skip(release(buf, m.hold())),
                suppressing,
                inside,
            },
        }
    } else {
        match next_action(m, buf, inside) {
            Some(a) => {
                let rest = buf.skip(a.hit.pos + a.hit.len);
                match a.kind {
                    TagKind::EnvelopeOpen => after(
                        buf.take(a.hit.pos + a.hit.len),
                        scan(m, rest, false, true),
                    ),
                    TagKind::EnvelopeClose => after(
                        buf.take(a.hit.pos + a.hit.len),
                        scan(m, rest, false, false),
                    ),
                    TagKind::OrphanOpen => after(
                        buf.take(a.hit.pos),
                        scan(m, rest, true, inside),
                    ),
                    TagKind::OrphanClose => after(
                        buf.take(a.hit.pos),
                        scan(m, rest, false, inside),
                    ),
                }
            },
            None => Scan {
                out: buf.take(release(buf, m.hold())),
                buf: buf.skip(release(buf, m.hold())),
                suppressing,
                inside,
            },
        }
    }
}

/// One more piece of content, behind what is held back: it is scanned, unless
/// the format opted out.
pub open spec fn sanitized(
    m: MarkerView,
    text: Seq<char>,
    buf: Seq<char>,
    suppressing: bool,
    inside: bool,
) -> Scan {
    if m.off() {
        Scan { out: text, buf, suppressing, inside }
    } else {
        scan(m, buf + text, suppressing, inside)
    }
}

#[via_fn]
proof fn scan_decreases(m: MarkerView, buf: Seq<char>, suppressing: bool, inside: bool) {
    if m.wf() {
        lemma_earliest(m.close, buf, 0);
        lemma_next_action(m, buf, inside);
    }
}

/// What [`earliest`] finds is an occurrence of one of the tags; where it finds
/// nothing, none of them occurs.
pub proof fn lemma_earliest(tags: Seq<Seq<char>>, buf: Seq<char>, i: int)
    requires
        0 <= i,
        none_empty(tags),
    ensures
        match earliest(tags, buf, i) {
            Some(h) => {
                &&& 0 <= h.pos && 0 < h.len && h.pos + h.len <= buf.len()
                &&& exists|j: int|
                    i <= j < tags.len() && h.len == (#[trigger] tags[j]).len() && occurs_at(
                        buf,
                        tags[j],
                        h.pos,
                    )
            },
            None => forall|j: int| i <= j < tags.len() ==> !contains(buf, #[trigger] tags[j]),
        },
    decreases tags.len() - i,
{
    if i < tags.len() {
        lemma_earliest(tags, buf, i + 1);
        lemma_find_from(buf, tags[i], 0);
        assert(tags[i].len() > 0);
    }
}

pub proof fn lemma_next_action(m: MarkerView, buf: Seq<char>, inside: bool)
    requires
        m.wf(),
    ensures
        match next_action(m, buf, inside) {
            Some(a) => 0 <= a.hit.pos && 0 < a.hit.len && a.hit.pos + a.hit.len <= buf.len(),
            None => {
                &&& tags_absent(m.envelope_open, buf)
                &&& tags_absent(m.envelope_close, buf)
                &&& !inside ==> tags_absent(m.orphan_open, buf) && tags_absent(m.close, buf)
            },
        },
{
    lemma_earliest(m.envelope_open, buf, 0);
    lemma_earliest(m.envelope_close, buf, 0);
    lemma_earliest(m.orphan_open, buf, 0);
    lemma_earliest(m.close, buf, 0);
}

// ---------------------------------------------------------------------------
// Executable side
// ---------------------------------------------------------------------------
/// A tag found in the buffer.
struct Found {
    pos: usize,
    len: usize,
}

impl Found {
    spec fn hit(self) -> Hit {
        Hit { pos: self.pos as int, len: self.len as int }
    }
}

spec fn hit_of(f: Option<Found>) -> Option<Hit> {
    match f {
        Some(x) => Some(x.hit()),
        None => None,
    }
}

/// The tags as character vectors.
fn tag_chars(tags: &Vec<String>) -> (r: Vec<Vec<char>>)
    ensures
        char_views(r@) == views(tags@),
{
    let mut r: Vec<Vec<char>> = Vec::new();
    let mut i: usize = 0;
    while i < tags.len()
        invariant
            i <= tags@.len(),
            char_views(r@) == views(tags@.take(i as int)),
        decreases tags@.len() - i,
    {
        let ghost before = r@;
        let tag = chars_of(tags[i].as_str());
        r.push(tag);
        assert(char_views(r@) =~= char_views(before).push(tag@));
        assert(views(tags@.take(i + 1)) =~= views(tags@.take(i as int)).push(tag@));
        i += 1;
    }
    assert(tags@.take(i as int) =~= tags@);
    r
}

/// Computes [`max_len`].
fn max_len_of(tags: &Vec<String>) -> (r: usize)
    ensures
        r == max_len(views(tags@)),
{
    let mut best: usize = 0;
    let mut i: usize = 0;
    assert(views(tags@.take(0)) =~= Seq::<Seq<char>>::empty());
    while i < tags.len()
        invariant
            i <= tags@.len(),
            best == max_len(views(tags@.take(i as int))),
        decreases tags@.len() - i,
    {
        let n = byte_len_of(tags[i].as_str());
        assert(views(tags@.take(i + 1)).drop_last() =~= views(tags@.take(i as int)));
        assert(views(tags@.take(i + 1)).last() == tags@[i as int]@);
        if n > best {
            best = n;
        }
        i += 1;
    }
    assert(tags@.take(i as int) =~= tags@);
    best
}

/// Computes [`earliest`].
fn earliest_of(tags: &Vec<Vec<char>>, buf: &Vec<char>) -> (r: Option<Found>)
    ensures
        hit_of(r) == earliest(char_views(tags@), buf@, 0),
        r matches Some(f) ==> f.pos + f.len <= buf.len(),
{
    let mut best: Option<Found> = None;
    let mut i: usize = tags.len();
    while i > 0
        invariant
            i <= tags@.len(),
            hit_of(best) == earliest(char_views(tags@), buf@, i as int),
            best matches Some(f) ==> f.pos + f.len <= buf.len(),
        decreases i,
    {
        i -= 1;
        let tag = &tags[i];
        assert(char_views(tags@)[i as int] == tag@);
        match find_chars(buf, tag, 0) {
            None => {},
            Some(p) => {
                let keep = match &best {
                    Some(f) => f.pos < p,
                    None => false,
                };
                if !keep {
                    best = Some(Found { pos: p, len: tag.len() });
                }
            },
        }
    }
    best
}

/// Computes [`release`].
fn release_of(buf: &Vec<char>, hold: usize) -> (k: usize)
    ensures
        k == release(buf@, hold as nat),
        k <= buf@.len(),
        k < buf@.len() || buf@.len() == 0,
{
    if !longer_than(buf, hold) {
        proof {
            lemma_byte_len_bounds(buf@);
        }
        return 0;
    }
    let text = string_of_all(buf);
    let total = byte_len_of(text.as_str());
    proof {
        lemma_byte_len_bounds(buf@);
    }
    let k = count_within(buf, total - hold);
    if k < buf.len() {
        k
    } else {
        buf.len() - 1
    }
}

/// A tag found outside suppression.
struct Act {
    found: Found,
    kind: TagKind,
}

spec fn action_of(a: Option<Act>) -> Option<Action> {
    match a {
        Some(x) => Some(Action { hit: x.found.hit(), kind: x.kind }),
        None => None,
    }
}

/// Computes [`prefer`].
fn prefer_of(best: Option<Act>, found: Option<Found>, kind: TagKind) -> (r: Option<Act>)
    ensures
        action_of(r) == prefer(action_of(best), hit_of(found), kind),
        match r {
            Some(a) => (best matches Some(b) && a == b) || (found matches Some(f) && a.found == f),
            None => true,
        },
{
    match found {
        None => best,
        Some(f) => {
            let keep = match &best {
                Some(a) => a.found.pos <= f.pos,
                None => false,
            };
            if keep {
                best
            } else {
                Some(Act { found: f, kind })
            }
        },
    }
}

/// Removes leaked tags from one more piece of content.
///
/// `tag_scan_buf` is what is held back from the pieces before,
/// `suppressing_param_leak` whether a leak is being dropped, and
/// `inside_envelope` whether the text is inside a legitimate envelope.
pub fn sanitize_content_chunk(
    text: &str,
    tag_scan_buf: &mut String,
    suppressing_param_leak: &mut bool,
    inside_envelope: &mut bool,
    markers: &LeakMarkers,
) -> (out: String)
    requires
        markers@.wf(),
    ensures
        (Scan {
            out: out@,
            buf: final(tag_scan_buf)@,
            suppressing: *final(suppressing_param_leak),
            inside: *final(inside_envelope),
        }) == sanitized(
            markers@,
            text@,
            old(tag_scan_buf)@,
            *old(suppressing_param_leak),
            *old(inside_envelope),
        ),
{
    if markers.orphan_open.len() == 0 && markers.envelope_open.len() == 0 {
        return text.to_owned();
    }
    let ghost m = markers@;
    let orphan_open = tag_chars(&markers.orphan_open);
    let close = tag_chars(&markers.close);
    let envelope_open = tag_chars(&markers.envelope_open);
    let envelope_close = tag_chars(&markers.envelope_close);
    let a: usize = max_len_of(&markers.orphan_open);
    let b: usize = max_len_of(&markers.close);
    let c: usize = max_len_of(&markers.envelope_open);
    let d: usize = max_len_of(&markers.envelope_close);
    let ab: usize = if a > b {
        a
    } else {
        b
    };
    let cd: usize = if c > d {
        c
    } else {
        d
    };
    let tag_max: usize = if ab > cd {
        ab
    } else {
        cd
    };
    let hold: usize = if tag_max == 0 {
        0
    } else {
        tag_max - 1
    };
    tag_scan_buf.append(text);
    let mut buf = chars_of(tag_scan_buf.as_str());
    let ghost goal = scan(m, buf@, *suppressing_param_leak, *inside_envelope);
    let mut out: Vec<char> = Vec::new();
    assert(after(Seq::empty(), goal).out =~= goal.out);
    loop
        invariant_except_break
            m.wf(),
            m == markers@,
            hold == m.hold(),
            char_views(orphan_open@) == m.orphan_open,
            char_views(close@) == m.close,
            char_views(envelope_open@) == m.envelope_open,
            char_views(envelope_close@) == m.envelope_close,
            after(out@, scan(m, buf@, *suppressing_param_leak, *inside_envelope)) == goal,
        ensures
            goal == (Scan {
                out: out@,
                buf: buf@,
                suppressing: *suppressing_param_leak,
                inside: *inside_envelope,
            }),
        decreases buf@.len(),
    {
        let ghost out0 = out@;
        let ghost here = scan(m, buf@, *suppressing_param_leak, *inside_envelope);
        proof {
            lemma_earliest(m.close, buf@, 0);
            lemma_next_action(m, buf@, *inside_envelope);
        }
        if *suppressing_param_leak {
            match earliest_of(&close, &buf) {
                Some(f) => {
                    let n = buf.len();
                    let rest = part(&buf, f.pos + f.len, n);
                    assert(rest@ =~= buf@.skip(f.pos + f.len));
                    buf = rest;
                    *suppressing_param_leak = false;
                },
                None => {
                    let k = release_of(&buf, hold);
                    let n = buf.len();
                    let rest = part(&buf, k, n);
                    assert(rest@ =~= buf@.skip(k as int));
                    buf = rest;
                    assert(out@ + here.out =~= out@);
                    break ;
                },
            }
        } else {
            let mut best = prefer_of(None, earliest_of(&envelope_open, &buf), TagKind::EnvelopeOpen);
            best = prefer_of(best, earliest_of(&envelope_close, &buf), TagKind::EnvelopeClose);
            if !*inside_envelope {
                best = prefer_of(best, earliest_of(&orphan_open, &buf), TagKind::OrphanOpen);
                best = prefer_of(best, earliest_of(&close, &buf), TagKind::OrphanClose);
            }
            match best {
                Some(act) => {
                    let pos = act.found.pos;
                    let end = act.found.pos + act.found.len;
                    let n = buf.len();
                    let rest = part(&buf, end, n);
                    assert(rest@ =~= buf@.skip(end as int));
                    assert(buf@.subrange(0, end as int) =~= buf@.take(end as int));
                    assert(buf@.subrange(0, pos as int) =~= buf@.take(pos as int));
                    match act.kind {
                        TagKind::EnvelopeOpen => {
                            push_part(&mut out, &buf, 0, end);
                            *inside_envelope = true;
                        },
                        TagKind::EnvelopeClose => {
                            push_part(&mut out, &buf, 0, end);
                            *inside_envelope = false;
                        },
                        TagKind::OrphanOpen => {
                            push_part(&mut out, &buf, 0, pos);
                            *suppressing_param_leak = true;
                        },
                        TagKind::OrphanClose => {
                            push_part(&mut out, &buf, 0, pos);
                        },
                    }
                    buf = rest;
                    assert(out@ + scan(m, buf@, *suppressing_param_leak, *inside_envelope).out
                        =~= out0 + here.out);
                },
                None => {
                    let k = release_of(&buf, hold);
                    let n = buf.len();
                    push_part(&mut out, &buf, 0, k);
                    assert(buf@.subrange(0, k as int) =~= buf@.take(k as int));
                    let rest = part(&buf, k, n);
                    assert(rest@ =~= buf@.skip(k as int));
                    buf = rest;
                    break ;
                },
            }
        }
    }
    *tag_scan_buf = string_of_all(&buf);
    string_of_all(&out)
}

// ---------------------------------------------------------------------------
// The end of the stream
// ---------------------------------------------------------------------------
/// Whether a held tail looks like the beginning of a leak tag: without its
/// trailing white space it begins with `<`, holds no white space, and is
/// shorter than the longest leak tag.
pub open spec fn looks_partial(m: MarkerView, s: Seq<char>) -> bool {
    let t = trim_end(s, CharSet::White);
    &&& t.len() > 0 && t[0] == '<'
    &&& until(t, CharSet::White, 0) == t.len()
    &&& byte_len(t) < larger(max_len(m.orphan_open), max_len(m.close))
}

/// Gives out what is held back at the end of the stream: nothing where a leak
/// is being dropped or the tail looks like the beginning of a tag.
pub fn flush_content_sanitizer(
    tag_scan_buf: &mut String,
    suppressing_param_leak: &mut bool,
    markers: &LeakMarkers,
) -> (out: String)
    ensures
        final(tag_scan_buf)@ == Seq::<char>::empty(),
        *final(suppressing_param_leak) == false,
        out@ == if *old(suppressing_param_leak) || looks_partial(markers@, old(tag_scan_buf)@) {
            Seq::<char>::empty()
        } else {
            old(tag_scan_buf)@
        },
{
    if *suppressing_param_leak {
        *tag_scan_buf = String::new();
        *suppressing_param_leak = false;
        return String::new();
    }
    let buf = chars_of(tag_scan_buf.as_str());
    *tag_scan_buf = String::new();
    let a: usize = max_len_of(&markers.orphan_open);
    let b: usize = max_len_of(&markers.close);
    let tag_max: usize = if a > b {
        a
    } else {
        b
    };
    let k = tail_of(&buf, CharSet::White);
    let t = part(&buf, 0, k);
    assert(t@ =~= trim_end(buf@, CharSet::White));
    if t.len() > 0 && t[0] == '<' && until_of(&t, CharSet::White, 0) == t.len() && tag_max > 0
        && !longer_than(&t, tag_max - 1) {
        return String::new();
    }
    string_of_all(&buf)
}

// ---------------------------------------------------------------------------
// Laws
// ---------------------------------------------------------------------------
/// Text without a marker passes: what goes out and what is held back are the
/// text, and the state stays.
pub proof fn law_benign_text_passes(m: MarkerView, buf: Seq<char>, inside: bool)
    requires
        m.wf(),
        m.free_of(buf),
    ensures
        scan(m, buf, false, inside).out + scan(m, buf, false, inside).buf == buf,
        !scan(m, buf, false, inside).suppressing,
        scan(m, buf, false, inside).inside == inside,
{
    lemma_absent_earliest(m.envelope_open, buf, 0);
    lemma_absent_earliest(m.envelope_close, buf, 0);
    lemma_absent_earliest(m.orphan_open, buf, 0);
    lemma_absent_earliest(m.close, buf, 0);
    let k = release(buf, m.hold());
    lemma_release(buf, m.hold());
    assert(buf.take(k) + buf.skip(k) =~= buf);
}

proof fn lemma_absent_earliest(tags: Seq<Seq<char>>, buf: Seq<char>, i: int)
    requires
        0 <= i,
        tags_absent(tags, buf),
    ensures
        earliest(tags, buf, i) is None,
    decreases tags.len() - i,
{
    if i < tags.len() {
        lemma_find_from(buf, tags[i], 0);
        assert(!contains(buf, tags[i]));
        lemma_absent_earliest(tags, buf, i + 1);
    }
}

proof fn lemma_release(buf: Seq<char>, hold: nat)
    ensures
        0 <= release(buf, hold) <= buf.len(),
        byte_len(buf.skip(release(buf, hold))) <= larger(hold + 3, 4),
{
    assert(buf.take(0) =~= Seq::<char>::empty());
    assert(buf.skip(0) =~= buf);
    if byte_len(buf) > hold {
        let n = byte_len(buf) - hold;
        lemma_chars_within(buf, n, 0);
        let k = chars_within(buf, n, 0);
        if k < buf.len() {
            assert(buf.take(k + 1) =~= buf.take(k).push(buf[k]));
            lemma_byte_len_push(buf.take(k), buf[k]);
            lemma_byte_len_take(buf, k, k);
        } else {
            let j = buf.len() - 1;
            lemma_byte_len_take(buf, j, j);
            assert(buf.skip(j) =~= Seq::<char>::empty().push(buf[j]));
            lemma_byte_len_push(Seq::empty(), buf[j]);
        }
    }
}

/// At most the length of the longest marker, rounded up to whole characters,
/// is ever held back.
pub proof fn law_held_tail_is_bounded(
    m: MarkerView,
    buf: Seq<char>,
    suppressing: bool,
    inside: bool,
)
    requires
        m.wf(),
    ensures
        byte_len(scan(m, buf, suppressing, inside).buf) <= larger(m.hold() + 3, 4),
    decreases buf.len(),
{
    lemma_release(buf, m.hold());
    lemma_earliest(m.close, buf, 0);
    lemma_next_action(m, buf, inside);
    if suppressing {
        if let Some(h) = earliest(m.close, buf, 0) {
            law_held_tail_is_bounded(m, buf.skip(h.pos + h.len), false, inside);
        }
    } else if let Some(a) = next_action(m, buf, inside) {
        let rest = buf.skip(a.hit.pos + a.hit.len);
        match a.kind {
            TagKind::EnvelopeOpen => law_held_tail_is_bounded(m, rest, false, true),
            TagKind::EnvelopeClose => law_held_tail_is_bounded(m, rest, false, false),
            TagKind::OrphanOpen => law_held_tail_is_bounded(m, rest, true, inside),
            TagKind::OrphanClose => law_held_tail_is_bounded(m, rest, false, inside),
        }
    }
}

/// What goes out of a stream of chunks, and what is held back after it, from
/// a fresh state.
pub open spec fn stream(m: MarkerView, chunks: Seq<Seq<char>>) -> Scan
    decreases chunks.len(),
{
    if chunks.len() == 0 {
        Scan { out: Seq::empty(), buf: Seq::empty(), suppressing: false, inside: false }
    } else {
        let s = stream(m, chunks.drop_last());
        after(s.out, scan(m, s.buf + chunks.last(), s.suppressing, s.inside))
    }
}

/// A stream whose whole text holds no marker comes through unchanged, however
/// it is cut into chunks, once the held tail is given out.
pub proof fn law_benign_stream_round_trips(m: MarkerView, chunks: Seq<Seq<char>>)
    requires
        m.wf(),
        m.free_of(concat_all(chunks)),
    ensures
        stream(m, chunks).out + stream(m, chunks).buf == concat_all(chunks),
        !stream(m, chunks).suppressing,
        !stream(m, chunks).inside,
    decreases chunks.len(),
{
    if chunks.len() > 0 {
        let less = chunks.drop_last();
        let whole = concat_all(chunks);
        assert(concat_all(less) =~= whole.subrange(0, concat_all(less).len() as int));
        lemma_free_part(m, whole, 0, concat_all(less).len() as int);
        law_benign_stream_round_trips(m, less);
        let s = stream(m, less);
        let buf = s.buf + chunks.last();
        assert(whole =~= s.out + buf);
        assert(buf =~= whole.subrange(s.out.len() as int, whole.len() as int));
        lemma_free_part(m, whole, s.out.len() as int, whole.len() as int);
        law_benign_text_passes(m, buf, false);
        let t = scan(m, buf, false, false);
        assert(s.out + t.out + t.buf =~= s.out + (t.out + t.buf));
    } else {
        assert(stream(m, chunks).out + stream(m, chunks).buf =~= concat_all(chunks));
    }
}

proof fn lemma_free_part(m: MarkerView, s: Seq<char>, lo: int, hi: int)
    requires
        0 <= lo <= hi <= s.len(),
        m.free_of(s),
    ensures
        m.free_of(s.subrange(lo, hi)),
{
    lemma_absent_part(m.orphan_open, s, lo, hi);
    lemma_absent_part(m.close, s, lo, hi);
    lemma_absent_part(m.envelope_open, s, lo, hi);
    lemma_absent_part(m.envelope_close, s, lo, hi);
}

proof fn lemma_absent_part(tags: Seq<Seq<char>>, s: Seq<char>, lo: int, hi: int)
    requires
        0 <= lo <= hi <= s.len(),
        tags_absent(tags, s),
    ensures
        tags_absent(tags, s.subrange(lo, hi)),
{
    let p = s.subrange(lo, hi);
    assert forall|i: int| 0 <= i < tags.len() implies !contains(p, #[trigger] tags[i]) by {
        let t = tags[i];
        assert(!contains(s, t));
        assert forall|k: int| !occurs_at(p, t, k) by {
            if occurs_at(p, t, k) {
                assert(s.subrange(lo + k, lo + k + t.len()) =~= p.subrange(k, k + t.len()));
                assert(occurs_at(s, t, lo + k));
            }
        }
    }
}

/// A leak is dropped whole: from an orphan opener up to and with the next
/// closer, nothing goes out, and what follows is scanned afresh.
pub proof fn law_leak_is_dropped(m: MarkerView, buf: Seq<char>, a: Action, h: Hit)
    requires
        m.wf(),
        next_action(m, buf, false) == Some(a),
        a.kind == TagKind::OrphanOpen,
        earliest(m.close, buf.skip(a.hit.pos + a.hit.len), 0) == Some(h),
    ensures
        scan(m, buf, false, false) == after(
            buf.take(a.hit.pos),
            scan(m, buf.skip(a.hit.pos + a.hit.len + h.pos + h.len), false, false),
        ),
{
    lemma_next_action(m, buf, false);
    let rest = buf.skip(a.hit.pos + a.hit.len);
    lemma_earliest(m.close, rest, 0);
    assert(rest.skip(h.pos + h.len) =~= buf.skip(a.hit.pos + a.hit.len + h.pos + h.len));
    reveal_with_fuel(scan, 2);
}

} // verus!
