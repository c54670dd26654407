//! Notices at the head of the system message.
use vstd::prelude::*;
use crate::decimal::dec;
use crate::decimal::dec_u64;
use crate::messages::{set_text, IncomingMessage};
use crate::messages::{lemma_message_views_insert, message_views, plain_message, MessageView};
use crate::text::{chars_of, find_chars, same, string_of_all, CharSet};
use crate::text::{find, find_from, lemma_find_from, lemma_find_from_is, occurs_at};
use crate::trim::{push_part, trim_end_chars};
use crate::trim::{tail, trim_end};

verus! {

/// The text with the notice between `open` and `close` replaced by `block`,
/// the first one where there are several; with `block` in front where there
/// is none. A notice is followed by a blank line; one at the end of a text of
/// its own is not, and is replaced without one.
pub open spec fn renewed(
    text: Seq<char>,
    block: Seq<char>,
    open: Seq<char>,
    close: Seq<char>,
) -> Seq<char> {
    match find(text, open) {
        Some(s) => match find_from(text, close + "\n\n"@, s) {
            Some(e) => text.take(s) + block + text.skip(e + close.len() + 2),
            None => match find_from(text, close, s) {
                Some(e) => text.take(s) + trim_end(block, CharSet::White) + text.skip(
                    e + close.len(),
                ),
                None => block + text,
            },
        },
        None => block + text,
    }
}

/// The messages with the notice at the head of the system message, which is
/// added where the conversation does not begin with one.
pub open spec fn with_notice(
    msgs: Seq<MessageView>,
    block: Seq<char>,
    open: Seq<char>,
    close: Seq<char>,
) -> Seq<MessageView> {
    if msgs.len() > 0 && msgs[0].role == "system"@ {
        msgs.update(
            0,
            (MessageView { text: renewed(msgs[0].text, block, open, close), ..msgs[0] }),
        )
    } else {
        msgs.insert(0, plain_message("system"@, trim_end(block, CharSet::White)))
    }
}

/// Computes [`renewed`].
fn renew(text: &str, block: &str, open: &str, close: &str) -> (r: String)
    ensures
        r@ == renewed(text@, block@, open@, close@),
{
    proof {
        reveal_strlit("\n\n");
    }
    let t = chars_of(text);
    let b = chars_of(block);
    let o = chars_of(open);
    let c = chars_of(close);
    let mut c2 = chars_of(close);
    let feeds = chars_of("\n\n");
    push_part(&mut c2, &feeds, 0, 2);
    assert(c2@ =~= close@ + "\n\n"@);
    let n = t.len();
    let mut out: Vec<char> = Vec::new();
    match find_chars(&t, &o, 0) {
        Some(s) => {
            match find_chars(&t, &c2, s) {
                Some(e) => {
                    push_part(&mut out, &t, 0, s);
                    push_part(&mut out, &b, 0, b.len());
                    push_part(&mut out, &t, e + c2.len(), n);
                    assert(out@ =~= t@.take(s as int) + b@ + t@.skip(e + c@.len() + 2));
                    return string_of_all(&out);
                },
                None => {},
            }
            match find_chars(&t, &c, s) {
                Some(e) => {
                    let short = trim_end_chars(&b, CharSet::White);
                    push_part(&mut out, &t, 0, s);
                    push_part(&mut out, &short, 0, short.len());
                    push_part(&mut out, &t, e + c.len(), n);
                    assert(out@ =~= t@.take(s as int) + short@ + t@.skip(e + c@.len()));
                    return string_of_all(&out);
                },
                None => {},
            }
        },
        None => {},
    }
    push_part(&mut out, &b, 0, b.len());
    push_part(&mut out, &t, 0, n);
    assert(out@ =~= b@ + t@);
    string_of_all(&out)
}

/// Puts a notice at the head of the system message.
pub fn put_notice(
    messages: &mut Vec<IncomingMessage>,
    block: &str,
    open: &str,
    close: &str,
)
    ensures
        message_views(final(messages)@) == with_notice(
            message_views(old(messages)@),
            block@,
            open@,
            close@,
        ),
{
    broadcast use lemma_message_views_insert;

    let ghost mv = message_views(messages@);
    let system = messages.len() > 0 && same(messages[0].role.as_str(), "system");
    if system {
        let text = renew(messages[0].content.text.as_str(), block, open, close);
        set_text(messages, 0, text);
    } else {
        let b = chars_of(block);
        let short = trim_end_chars(&b, CharSet::White);
        let m = IncomingMessage::synthetic_system(string_of_all(&short));
        messages.insert(0, m);
    }
}

// ---------------------------------------------------------------------------
// A notice is replaced
// ---------------------------------------------------------------------------
/// A tag whose first character stands nowhere else in it.
#[verifier::opaque]
pub open spec fn is_tag(t: Seq<char>) -> bool {
    t.len() > 0 && t[0] == '<' && t.last() == '>' && forall|i: int|
        0 < i < t.len() ==> #[trigger] t[i] != '<'
}

/// The notice with this body.
pub open spec fn notice(open: Seq<char>, body: Seq<char>, close: Seq<char>) -> Seq<char> {
    open + body + close + "\n\n"@
}

/// Whether the closing tag stands only at the end of the notice.
pub open spec fn closes_once(open: Seq<char>, body: Seq<char>, close: Seq<char>) -> bool {
    find(open + body + close, close) == Some((open.len() + body.len()) as int)
}

/// What stands in a part stands in the whole.
proof fn lemma_occurs_shift(a: Seq<char>, s: Seq<char>, b: Seq<char>, p: Seq<char>, i: int)
    ensures
        occurs_at(s, p, i) ==> occurs_at(a + s + b, p, a.len() + i),
        0 <= i && i + p.len() <= s.len() && occurs_at(a + s + b, p, a.len() + i) ==> occurs_at(
            s,
            p,
            i,
        ),
{
    let w = a + s + b;
    if 0 <= i && i + p.len() <= s.len() {
        assert(w.subrange(a.len() + i, a.len() + i + p.len()) =~= s.subrange(i, i + p.len()));
    }
}

/// Where text without the tag is followed by the tag, the tag is first found
/// there.
proof fn lemma_tag_found(pre: Seq<char>, rest: Seq<char>, tag: Seq<char>)
    requires
        is_tag(tag),
        occurs_at(rest, tag, 0),
        forall|i: int| #[trigger] occurs_at(pre, tag, i) ==> false,
    ensures
        find(pre + rest, tag) == Some(pre.len() as int),
{
    reveal(is_tag);
    let w = pre + rest;
    lemma_occurs_shift(pre, rest, Seq::empty(), tag, 0);
    assert(pre + rest + Seq::<char>::empty() =~= w);
    assert forall|j: int| 0 <= j < pre.len() implies !occurs_at(w, tag, j) by {
        if occurs_at(w, tag, j) {
            if j + tag.len() <= pre.len() {
                lemma_occurs_shift(Seq::empty(), pre, rest, tag, j);
                assert(Seq::<char>::empty() + pre + rest =~= w);
            } else {
                let k = pre.len() - j;
                assert(w.subrange(j, j + tag.len())[k] == w[pre.len() as int]);
                assert(w[pre.len() as int] == rest[0]);
                assert(rest.subrange(0, tag.len() as int)[0] == rest[0]);
                assert(tag[k] == '<');
            }
        }
    }
    lemma_find_from_is(w, tag, 0, pre.len() as int);
}

/// What is first found in a part is first found there from the part's start on.
proof fn lemma_found_in(
    pre: Seq<char>,
    c: Seq<char>,
    post: Seq<char>,
    p: Seq<char>,
    at: int,
)
    requires
        find(c, p) == Some(at),
    ensures
        find_from(pre + c + post, p, pre.len() as int) == Some(pre.len() + at),
{
    let w = pre + c + post;
    lemma_find_from(c, p, 0);
    lemma_occurs_shift(pre, c, post, p, at);
    assert forall|j: int| pre.len() <= j < pre.len() + at implies !occurs_at(w, p, j) by {
        lemma_occurs_shift(pre, c, post, p, j - pre.len());
    }
    lemma_find_from_is(w, p, pre.len() as int, pre.len() + at);
}

/// A longer pattern that begins with `p` is not found before `p` is.
proof fn lemma_longer_not_before(w: Seq<char>, p: Seq<char>, more: Seq<char>, from: int)
    requires
        0 <= from,
    ensures
        find_from(w, p + more, from) matches Some(j) ==> (find_from(w, p, from) matches Some(i)
            && i <= j && occurs_at(w, p, j)),
{
    let long = p + more;
    lemma_find_from(w, long, from);
    lemma_find_from(w, p, from);
    if let Some(j) = find_from(w, long, from) {
        assert(w.subrange(j, j + p.len()) =~= w.subrange(j, j + long.len()).take(p.len() as int));
        assert(long.take(p.len() as int) =~= p);
        assert(occurs_at(w, p, j));
    }
}

/// The closing tag with its blank line, in a text that holds a notice.
proof fn lemma_long_close_found(
    pre: Seq<char>,
    open: Seq<char>,
    body: Seq<char>,
    close: Seq<char>,
    post: Seq<char>,
)
    requires
        closes_once(open, body, close),
    ensures
        find_from(pre + notice(open, body, close) + post, close + "\n\n"@, pre.len() as int)
            == Some((pre.len() + open.len() + body.len()) as int),
{
    let c = open + body + close;
    let feeds = "\n\n"@;
    let w = pre + notice(open, body, close) + post;
    let at = (open.len() + body.len()) as int;
    lemma_found_in(pre, c, feeds + post, close, at);
    assert(w =~= pre + c + (feeds + post));
    lemma_longer_not_before(w, close, feeds, pre.len() as int);
    let j = pre.len() + at;
    assert(w.subrange(j, j + (close + feeds).len()) =~= close + feeds);
    assert(occurs_at(w, close + feeds, j));
    lemma_find_from(w, close + feeds, pre.len() as int);
}

/// A notice without its blank line.
proof fn lemma_notice_trimmed(open: Seq<char>, body: Seq<char>, close: Seq<char>)
    requires
        is_tag(close),
    ensures
        trim_end(notice(open, body, close), CharSet::White) == open + body + close,
{
    reveal(is_tag);
    reveal_strlit("\n\n");
    let b = notice(open, body, close);
    let c = open + body + close;
    let n = b.len() as int;
    assert(b[n - 1] == '\n');
    assert(b[n - 2] == '\n');
    assert(b[n - 3] == close.last());
    assert(tail(b, CharSet::White, n) == tail(b, CharSet::White, n - 1));
    assert(tail(b, CharSet::White, n - 1) == tail(b, CharSet::White, n - 2));
    assert(tail(b, CharSet::White, n - 2) == n - 2);
    assert(b.take(n - 2) =~= c);
}

/// Giving a second notice is giving it in place of the first: the notice is
/// replaced, never repeated, whatever the conversation begins with, as long
/// as no notice holds its own closing tag.
pub proof fn law_notice_is_replaced(
    msgs: Seq<MessageView>,
    open: Seq<char>,
    close: Seq<char>,
    body1: Seq<char>,
    body2: Seq<char>,
)
    requires
        is_tag(open),
        is_tag(close),
        closes_once(open, body1, close),
        msgs.len() > 0 && msgs[0].role == "system"@ ==> (find(msgs[0].text, open) is Some
            ==> find_from(msgs[0].text, close, find(msgs[0].text, open)->0) is Some),
    ensures
        with_notice(
            with_notice(msgs, notice(open, body1, close), open, close),
            notice(open, body2, close),
            open,
            close,
        ) == with_notice(msgs, notice(open, body2, close), open, close),
{
    let b1 = notice(open, body1, close);
    let b2 = notice(open, body2, close);
    let once = with_notice(msgs, b1, open, close);
    let twice = with_notice(once, b2, open, close);
    let goal = with_notice(msgs, b2, open, close);
    lemma_notice_trimmed(open, body1, close);
    lemma_notice_trimmed(open, body2, close);
    if msgs.len() > 0 && msgs[0].role == "system"@ {
        lemma_renewed_twice(msgs[0].text, open, close, body1, body2);
        assert(twice =~= goal);
    } else {
        let none = Seq::<char>::empty();
        let c1 = open + body1 + close;
        let c2 = open + body2 + close;
        lemma_nothing_in_nothing(open);
        lemma_no_room(close);
        lemma_renew_short(none, none, open, close, body1, body2);
        assert(none + c1 + none =~= c1);
        assert(none + c2 + none =~= c2);
        assert(once[0].text == c1);
        assert(twice[0].text == c2);
        assert(twice =~= goal);
    }
}

/// A notice with its blank line, renewed.
proof fn lemma_renew_long(
    pre: Seq<char>,
    post: Seq<char>,
    open: Seq<char>,
    close: Seq<char>,
    body1: Seq<char>,
    block: Seq<char>,
)
    requires
        is_tag(open),
        closes_once(open, body1, close),
        forall|i: int| #[trigger] occurs_at(pre, open, i) ==> false,
    ensures
        renewed(pre + notice(open, body1, close) + post, block, open, close) == pre + block + post,
{
    reveal_strlit("\n\n");
    let b1 = notice(open, body1, close);
    let t1 = pre + b1 + post;
    let at = (pre.len() + open.len() + body1.len()) as int;
    assert((b1 + post).subrange(0, open.len() as int) =~= open);
    assert(occurs_at(b1 + post, open, 0));
    lemma_tag_found(pre, b1 + post, open);
    assert(pre + (b1 + post) =~= t1);
    lemma_long_close_found(pre, open, body1, close, post);
    assert(t1.take(pre.len() as int) =~= pre);
    assert(t1.skip(at + close.len() + 2) =~= post);
}

/// A notice that no blank line follows, renewed. No closing tag with a blank
/// line stands after it.
proof fn lemma_renew_short(
    pre: Seq<char>,
    post: Seq<char>,
    open: Seq<char>,
    close: Seq<char>,
    body1: Seq<char>,
    body2: Seq<char>,
)
    requires
        is_tag(open),
        is_tag(close),
        closes_once(open, body1, close),
        forall|i: int| #[trigger] occurs_at(pre, open, i) ==> false,
        forall|i: int| #[trigger] occurs_at(close + post, close + "\n\n"@, i) ==> false,
    ensures
        renewed(
            pre + (open + body1 + close) + post,
            notice(open, body2, close),
            open,
            close,
        ) == pre + (open + body2 + close) + post,
{
    let c1 = open + body1 + close;
    let c2 = open + body2 + close;
    let t1 = pre + c1 + post;
    let feeds = "\n\n"@;
    let at = (pre.len() + open.len() + body1.len()) as int;
    assert((c1 + post).subrange(0, open.len() as int) =~= open);
    assert(occurs_at(c1 + post, open, 0));
    lemma_tag_found(pre, c1 + post, open);
    assert(pre + (c1 + post) =~= t1);
    lemma_found_in(pre, c1, post, close, (open.len() + body1.len()) as int);
    lemma_longer_not_before(t1, close, feeds, pre.len() as int);
    lemma_find_from(t1, close + feeds, pre.len() as int);
    if let Some(j) = find_from(t1, close + feeds, pre.len() as int) {
        let before = pre + (open + body1);
        assert(t1 =~= before + (close + post) + Seq::<char>::empty());
        lemma_occurs_shift(
            before,
            close + post,
            Seq::empty(),
            close + feeds,
            j - before.len(),
        );
        assert(occurs_at(close + post, close + feeds, j - before.len()));
    }
    lemma_notice_trimmed(open, body2, close);
    assert(t1.take(pre.len() as int) =~= pre);
    assert(t1.skip(at + close.len()) =~= post);
}

proof fn lemma_renewed_twice(
    text: Seq<char>,
    open: Seq<char>,
    close: Seq<char>,
    body1: Seq<char>,
    body2: Seq<char>,
)
    requires
        is_tag(open),
        is_tag(close),
        closes_once(open, body1, close),
        find(text, open) is Some ==> find_from(text, close, find(text, open)->0) is Some,
    ensures
        renewed(
            renewed(text, notice(open, body1, close), open, close),
            notice(open, body2, close),
            open,
            close,
        ) == renewed(text, notice(open, body2, close), open, close),
{
    let none = Seq::<char>::empty();
    let b1 = notice(open, body1, close);
    let b2 = notice(open, body2, close);
    let feeds = "\n\n"@;
    lemma_notice_trimmed(open, body1, close);
    lemma_notice_trimmed(open, body2, close);
    lemma_find_from(text, open, 0);
    match find(text, open) {
        None => {
            lemma_nothing_in_nothing(open);
            lemma_renew_long(none, text, open, close, body1, b2);
            assert(none + b1 + text =~= b1 + text);
            assert(none + b2 + text =~= b2 + text);
        },
        Some(s) => {
            let pre = text.take(s);
            assert(open.len() > 0) by {
                reveal(is_tag);
            }
            assert forall|i: int| #[trigger] occurs_at(pre, open, i) implies false by {
                assert(text.subrange(i, i + open.len()) =~= pre.subrange(i, i + open.len()));
                assert(occurs_at(text, open, i));
            }
            lemma_find_from(text, close + feeds, s);
            lemma_find_from(text, close, s);
            match find_from(text, close + feeds, s) {
                Some(e) => {
                    let post = text.skip(e + close.len() + 2);
                    lemma_renew_long(pre, post, open, close, body1, b2);
                },
                None => {
                    let e = find_from(text, close, s)->0;
                    let post = text.skip(e + close.len());
                    assert forall|i: int| #[trigger]
                        occurs_at(close + post, close + feeds, i) implies false by {
                        assert(text =~= text.take(e) + (close + post) + none) by {
                            assert(text.subrange(e, e + close.len()) == close);
                            assert(text =~= text.take(e) + text.subrange(e, e + close.len())
                                + post);
                        }
                        lemma_occurs_shift(text.take(e), close + post, none, close + feeds, i);
                        assert(occurs_at(text, close + feeds, e + i));
                    }
                    lemma_renew_short(pre, post, open, close, body1, body2);
                },
            }
        },
    }
}

proof fn lemma_no_room(close: Seq<char>)
    ensures
        forall|i: int| #[trigger]
            occurs_at(close + Seq::<char>::empty(), close + "\n\n"@, i) ==> false,
{
    reveal_strlit("\n\n");
}

proof fn lemma_nothing_in_nothing(tag: Seq<char>)
    requires
        is_tag(tag),
    ensures
        forall|i: int| #[trigger] occurs_at(Seq::empty(), tag, i) ==> false,
{
    reveal(is_tag);
}

/// A count in words: `1 time`, `2 times`.
pub open spec fn times_text(n: u32) -> Seq<char> {
    dec(n as nat) + " time"@ + if n == 1 {
        ""@
    } else {
        "s"@
    }
}

/// Writes a count in words.
pub fn count_times(n: u32) -> (r: String)
    ensures
        r@ == times_text(n),
{
    let mut s = dec_u64(n as u64);
    s.append(" time");
    if n == 1 {
        s.append("");
    } else {
        s.append("s");
    }
    s
}

} // verus!
