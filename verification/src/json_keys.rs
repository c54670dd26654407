//! How often a key stands in the outermost object of a JSON text. A value that
//! was parsed no longer tells: of the members with one key it keeps the last.
use vstd::prelude::*;
use crate::json::Json;
use crate::json::JsonView;
use crate::json_text::parse_json;
use crate::json_text::text_json;
use crate::text::{chars_of, same, string_of, CharSet};
use crate::trim::lead;

verus! {

/// One past the quotation mark that closes the text which is open at `i`.
pub open spec fn quote_end(s: Seq<char>, i: int) -> int
    decreases s.len() - i,
{
    if i < 0 || i >= s.len() {
        s.len() as int
    } else if s[i] == '\\' {
        if i + 1 < s.len() {
            quote_end(s, i + 2)
        } else {
            s.len() as int
        }
    } else if s[i] == '"' {
        i + 1
    } else {
        quote_end(s, i + 1)
    }
}

proof fn lemma_quote_end(s: Seq<char>, i: int)
    requires
        0 <= i,
    ensures
        quote_end(s, i) <= s.len(),
        i < s.len() ==> i < quote_end(s, i),
        i >= s.len() ==> quote_end(s, i) == s.len(),
    decreases s.len() - i,
{
    if i < s.len() {
        if s[i] == '\\' {
            if i + 1 < s.len() {
                lemma_quote_end(s, i + 2);
            }
        } else if s[i] != '"' {
            lemma_quote_end(s, i + 1);
        }
    }
}

/// Whether the text that ends at `e` names a member: a colon follows.
pub open spec fn names_member(s: Seq<char>, e: int) -> bool {
    let p = lead(s, CharSet::White, e);
    0 <= p < s.len() && s[p] == ':'
}

/// Whether a quoted text says this.
pub open spec fn says(quoted: Seq<char>, key: Seq<char>) -> bool {
    text_json(quoted) == Some(JsonView::Str(key))
}

/// How often the key stands in the outermost object, from `i` on, where `depth`
/// objects and arrays are open.
pub open spec fn key_count(s: Seq<char>, key: Seq<char>, i: int, depth: nat) -> nat
    decreases s.len() - i,
{
    if i < 0 || i >= s.len() {
        0
    } else if s[i] == '"' {
        let e = quote_end(s, i + 1);
        let here: nat = if depth == 1 && names_member(s, e) && says(s.subrange(i, e), key) {
            1
        } else {
            0
        };
        if i < e <= s.len() {
            here + key_count(s, key, e, depth)
        } else {
            here
        }
    } else if s[i] == '{' || s[i] == '[' {
        key_count(s, key, i + 1, depth + 1)
    } else if s[i] == '}' || s[i] == ']' {
        key_count(
            s,
            key,
            i + 1,
            if depth > 0 {
                (depth - 1) as nat
            } else {
                0
            },
        )
    } else {
        key_count(s, key, i + 1, depth)
    }
}

/// Whether the key stands more than once in the outermost object.
pub open spec fn repeats_key(s: Seq<char>, key: Seq<char>) -> bool {
    key_count(s, key, 0, 0) > 1
}

/// Computes [`quote_end`].
fn end_of_quote(v: &Vec<char>, from: usize) -> (e: usize)
    requires
        from <= v@.len(),
    ensures
        e == quote_end(v@, from as int),
        e <= v@.len(),
{
    let mut i: usize = from;
    while i < v.len()
        invariant
            from <= i <= v@.len(),
            quote_end(v@, from as int) == quote_end(v@, i as int),
        decreases v@.len() - i,
    {
        if v[i] == '"' {
            return i + 1;
        }
        if v[i] == '\\' {
            if i + 1 >= v.len() {
                return v.len();
            }
            i += 1;
        }
        i += 1;
    }
    v.len()
}

/// Decides [`names_member`].
fn colon_follows(v: &Vec<char>, e: usize) -> (r: bool)
    requires
        e <= v@.len(),
    ensures
        r == names_member(v@, e as int),
{
    let mut i: usize = e;
    while i < v.len() && CharSet::White.test(v[i])
        invariant
            e <= i <= v@.len(),
            lead(v@, CharSet::White, e as int) == lead(v@, CharSet::White, i as int),
        decreases v@.len() - i,
    {
        i += 1;
    }
    i < v.len() && v[i] == ':'
}

/// Decides [`says`].
fn quoted_says(v: &Vec<char>, i: usize, e: usize, key: &str) -> (r: bool)
    requires
        i <= e <= v@.len(),
    ensures
        r == says(v@.subrange(i as int, e as int), key@),
{
    match parse_json(string_of(v, i, e).as_str()) {
        Some(Json::Str(t)) => same(t.as_str(), key),
        _ => false,
    }
}

/// Decides [`repeats_key`].
pub fn key_repeats(text: &str, key: &str) -> (r: bool)
    ensures
        r == repeats_key(text@, key@),
{
    let v = chars_of(text);
    let mut found: usize = 0;
    let mut depth: usize = 0;
    let mut i: usize = 0;
    while i < v.len()
        invariant
            i <= v@.len(),
            v@ == text@,
            depth <= i,
            found <= i,
            key_count(v@, key@, 0, 0) == found + key_count(v@, key@, i as int, depth as nat),
        decreases v@.len() - i,
    {
        proof {
            lemma_quote_end(v@, i + 1);
        }
        let c = v[i];
        if c == '"' {
            let e = end_of_quote(&v, i + 1);
            if depth == 1 && colon_follows(&v, e) && quoted_says(&v, i, e, key) {
                found += 1;
            }
            i = e;
        } else {
            if c == '{' || c == '[' {
                depth += 1;
            } else if c == '}' || c == ']' {
                if depth > 0 {
                    depth -= 1;
                }
            }
            i += 1;
        }
    }
    found > 1
}

/// A character that neither begins a text nor opens or closes a level.
pub open spec fn is_plain(c: char) -> bool {
    c != '"' && c != '{' && c != '[' && c != '}' && c != ']'
}

proof fn lemma_plain_run(s: Seq<char>, key: Seq<char>, i: int, j: int, depth: nat)
    requires
        0 <= i <= j <= s.len(),
        forall|k: int| i <= k < j ==> is_plain(#[trigger] s[k]),
    ensures
        key_count(s, key, i, depth) == key_count(s, key, j, depth),
    decreases j - i,
{
    if i < j {
        assert(is_plain(s[i]));
        lemma_plain_run(s, key, i + 1, j, depth);
    }
}

proof fn lemma_quote_closes(s: Seq<char>, i: int, e: int)
    requires
        0 <= i < e <= s.len(),
        s[e - 1] == '"',
        forall|k: int| i <= k < e - 1 ==> #[trigger] s[k] != '"' && s[k] != '\\',
    ensures
        quote_end(s, i) == e,
    decreases e - i,
{
    if i < e - 1 {
        lemma_quote_closes(s, i + 1, e);
    }
}

/// A quoted text without quotes and escapes inside.
pub open spec fn is_quoted(q: Seq<char>) -> bool {
    q.len() >= 2 && q[0] == '"' && q.last() == '"' && forall|k: int|
        0 < k < q.len() - 1 ==> #[trigger] q[k] != '"' && q[k] != '\\'
}

proof fn lemma_member(s: Seq<char>, key: Seq<char>, i: int, q: Seq<char>)
    requires
        0 <= i,
        is_quoted(q),
        i + q.len() < s.len(),
        s.subrange(i, i + q.len()) == q,
        s[i + q.len()] == ':',
    ensures
        key_count(s, key, i, 1) == key_count(s, key, i + q.len(), 1) + if says(q, key) {
            1nat
        } else {
            0nat
        },
{
    let e = i + q.len();
    assert forall|k: int| i <= k < e implies s[k] == q[k - i] by {
        assert(s.subrange(i, e)[k - i] == s[k]);
    }
    assert forall|k: int| i + 1 <= k < e - 1 implies #[trigger] s[k] != '"' && s[k] != '\\' by {
        assert(q[k - i] != '"' && q[k - i] != '\\');
    }
    lemma_quote_closes(s, i + 1, e);
    assert(s[i] == '"');
    crate::trim::lemma_lead(s, CharSet::White, e);
    assert(!CharSet::White.has(':'));
    assert(lead(s, CharSet::White, e) == e);
}

/// An object of two members names a key twice where both are that key, and once
/// or never where they are not.
pub proof fn law_repeated_keys_are_seen(
    key: Seq<char>,
    q: Seq<char>,
    v: Seq<char>,
    r: Seq<char>,
    w: Seq<char>,
)
    requires
        is_quoted(q),
        is_quoted(r),
        forall|k: int| 0 <= k < v.len() ==> is_plain(#[trigger] v[k]),
        forall|k: int| 0 <= k < w.len() ==> is_plain(#[trigger] w[k]),
    ensures
        repeats_key(
            seq!['{'] + q + seq![':'] + v + seq![','] + r + seq![':'] + w + seq!['}'],
            key,
        ) <==> text_json(q) == Some(JsonView::Str(key)) && text_json(r) == Some(JsonView::Str(key)),
{
    let s = seq!['{'] + q + seq![':'] + v + seq![','] + r + seq![':'] + w + seq!['}'];
    let a: int = 1;
    let b = a + q.len();
    let c = b + 1 + v.len() + 1;
    let d = c + r.len();
    let e = d + 1 + w.len();
    assert(s.subrange(a, b) =~= q);
    assert(s[b] == ':');
    assert(s.subrange(c, d) =~= r);
    assert(s[d] == ':');
    assert forall|k: int| b <= k < c implies is_plain(#[trigger] s[k]) by {
        if b < k < c - 1 {
            assert(s[k] == v[k - b - 1]);
        } else if k == c - 1 {
            assert(s[k] == ',');
        }
    }
    assert forall|k: int| d <= k < e implies is_plain(#[trigger] s[k]) by {
        if d < k {
            assert(s[k] == w[k - d - 1]);
        }
    }
    assert(s[e] == '}');
    assert(e == s.len() - 1);
    assert(s[0] == '{');
    assert(key_count(s, key, 0, 0) == key_count(s, key, 1, 1));
    lemma_member(s, key, a, q);
    lemma_plain_run(s, key, b, c, 1);
    lemma_member(s, key, c, r);
    lemma_plain_run(s, key, d, e, 1);
    assert(key_count(s, key, e, 1) == key_count(s, key, e + 1, 0));
    assert(key_count(s, key, e + 1, 0) == 0);
}

} // verus!
