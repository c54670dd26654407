//! The vocabulary of a tokenizer.
use vstd::prelude::*;
use crate::text::own;
use crate::text::views;

verus! {

/// The tokenizer of the `tokenizers` crate.
#[verifier::external_type_specification]
#[verifier::external_body]
pub struct ExTokenizer(tokenizers::Tokenizer);

/// The tokens of a tokenizer with their numbers, added tokens among them.
pub uninterp spec fn vocabulary(t: tokenizers::Tokenizer) -> Map<Seq<char>, u32>;

/// A token stands among some pairs.
pub open spec fn listed(s: Seq<(String, u32)>, token: Seq<char>) -> bool {
    exists|i: int| 0 <= i < s.len() && (#[trigger] s[i]).0@ == token
}

/// Some pairs are the entries of a vocabulary, each token once.
pub open spec fn lists(s: Seq<(String, u32)>, v: Map<Seq<char>, u32>) -> bool {
    &&& s.len() == v.dom().len()
    &&& forall|i: int|
        0 <= i < s.len() ==> v.dom().contains((#[trigger] s[i]).0@) && v[s[i].0@] == s[i].1
    &&& forall|i: int, j: int| 0 <= i < j < s.len() ==> (#[trigger] s[i]).0@ != (#[trigger] s[j]).0@
    &&& forall|token: Seq<char>| #[trigger] v.dom().contains(token) ==> listed(s, token)
}

/// `Tokenizer::get_vocab`, with the added tokens, as a list of pairs. Claimed:
/// the list holds each token of the vocabulary once, with its number. Nothing
/// is claimed of the order, which is that of a hash map.
#[verifier::external_body]
fn vocab_entries(t: &tokenizers::Tokenizer) -> (r: Vec<(String, u32)>)
    ensures
        lists(r@, vocabulary(*t)),
{
    t.get_vocab(true).into_iter().collect()
}

/// `Tokenizer::get_vocab_size`, with the added tokens. Claimed: it is the
/// number of tokens of the vocabulary.
#[verifier::external_body]
fn vocab_len(t: &tokenizers::Tokenizer) -> (r: usize)
    ensures
        r == vocabulary(*t).dom().len(),
{
    t.get_vocab_size(true)
}

/// The size of a model's vocabulary: the tokenizer's, where that is smaller
/// and not nothing.
pub open spec fn capped(config_size: int, tokenizer_size: int) -> int {
    if 0 < tokenizer_size < config_size {
        tokenizer_size
    } else {
        config_size
    }
}

/// Caps the size of a model's vocabulary to that of its tokenizer.
pub fn cap_vocab_size(t: &tokenizers::Tokenizer, config_size: usize) -> (r: usize)
    ensures
        r == capped(config_size as int, vocabulary(*t).dom().len() as int),
{
    let n = vocab_len(t);
    if n > 0 && n < config_size {
        n
    } else {
        config_size
    }
}

/// A token has this number.
pub open spec fn numbered(v: Map<Seq<char>, u32>, id: int) -> bool {
    exists|token: Seq<char>| #[trigger] v.dom().contains(token) && v[token] == id
}

/// There is room for all tokens, by number and by count.
pub open spec fn has_room(v: Map<Seq<char>, u32>, n: int) -> bool {
    &&& n >= 1
    &&& n >= v.dom().len()
    &&& forall|token: Seq<char>| #[trigger] v.dom().contains(token) ==> v[token] < n
}

/// A list of tokens by number: as short as there is room for all of them, with
/// nothing where no token has the number. No list is longer than an index can
/// say.
pub open spec fn ordered(r: Seq<Seq<char>>, v: Map<Seq<char>, u32>) -> bool {
    &&& r.len() <= usize::MAX
    &&& has_room(v, r.len() as int) || r.len() == usize::MAX
    &&& r.len() == 1 || r.len() == v.dom().len() || numbered(v, r.len() - 1) || r.len() == usize::MAX
    &&& forall|i: int|
        0 <= i < r.len() ==> {
            if numbered(v, i) {
                v.dom().contains(#[trigger] r[i]) && v[r[i]] == i
            } else {
                r[i] == Seq::<char>::empty()
            }
        }
}

/// The tokens of some pairs have numbers below a bound.
spec fn below(s: Seq<(String, u32)>, n: int, bound: int) -> bool {
    forall|i: int| 0 <= i < n ==> (#[trigger] s[i]).1 < bound
}

/// What stands under a number after the first pairs have been written.
spec fn written(s: Seq<(String, u32)>, n: int, id: int, text: Seq<char>) -> bool {
    ||| exists|i: int| 0 <= i < n && (#[trigger] s[i]).1 == id && s[i].0@ == text
    ||| text == Seq::<char>::empty() && forall|i: int| 0 <= i < n ==> (#[trigger] s[i]).1 != id
}

proof fn lemma_written(s: Seq<(String, u32)>, v: Map<Seq<char>, u32>, id: int, text: Seq<char>)
    requires
        lists(s, v),
        written(s, s.len() as int, id, text),
    ensures
        if numbered(v, id) {
            v.dom().contains(text) && v[text] == id
        } else {
            text == Seq::<char>::empty()
        },
{
    if exists|i: int| 0 <= i < s.len() && (#[trigger] s[i]).1 == id && s[i].0@ == text {
        let i = choose|i: int| 0 <= i < s.len() && (#[trigger] s[i]).1 == id && s[i].0@ == text;
        assert(v.dom().contains(s[i].0@));
    } else if numbered(v, id) {
        let token = choose|token: Seq<char>| #[trigger] v.dom().contains(token) && v[token] == id;
        assert(listed(s, token));
        let i = choose|i: int| 0 <= i < s.len() && (#[trigger] s[i]).0@ == token;
        assert(s[i].1 == id);
    }
}

proof fn lemma_room(s: Seq<(String, u32)>, v: Map<Seq<char>, u32>, n: int)
    requires
        lists(s, v),
        n >= 1,
        n >= s.len(),
        below(s, s.len() as int, n),
    ensures
        has_room(v, n),
{
    assert forall|token: Seq<char>| #[trigger] v.dom().contains(token) implies v[token] < n by {
        assert(listed(s, token));
        let i = choose|i: int| 0 <= i < s.len() && (#[trigger] s[i]).0@ == token;
        assert(s[i].1 < n);
    }
}

/// Lists the tokens of a tokenizer by number, with nothing in the gaps.
pub fn extract_ordered_vocab(tokenizer: &tokenizers::Tokenizer) -> (r: Vec<String>)
    ensures
        ordered(views(r@), vocabulary(*tokenizer)),
{
    let vocab = vocab_entries(tokenizer);
    let ghost v = vocabulary(*tokenizer);
    let ghost s = vocab@;
    let mut max_id: u32 = 0;
    let mut i: usize = 0;
    while i < vocab.len()
        invariant
            i <= vocab@.len(),
            s == vocab@,
            below(s, i as int, max_id + 1),
            max_id == 0 || exists|k: int| 0 <= k < i && (#[trigger] s[k]).1 == max_id,
        decreases vocab@.len() - i,
    {
        let id: u32 = vocab[i].1;
        assert(s[i as int].1 == id);
        if id > max_id {
            max_id = id;
        }
        i += 1;
    }
    let last: usize = max_id as usize;
    let wanted: usize = if last < usize::MAX {
        last + 1
    } else {
        usize::MAX
    };
    let size: usize = if vocab.len() > wanted {
        vocab.len()
    } else {
        wanted
    };
    proof {
        if last < usize::MAX {
            assert(below(s, s.len() as int, size as int));
            lemma_room(s, v, size as int);
        }
        if size != s.len() && size != 1 {
            let k = choose|k: int| 0 <= k < s.len() && (#[trigger] s[k]).1 == max_id;
            assert(v.dom().contains(s[k].0@));
            assert(last == size - 1 || size == usize::MAX);
        }
    }
    let mut out: Vec<String> = Vec::new();
    let mut j: usize = 0;
    while j < size
        invariant
            j <= size,
            out@.len() == j,
            forall|k: int| 0 <= k < j ==> (#[trigger] out@[k])@ == Seq::<char>::empty(),
        decreases size - j,
    {
        let blank = own("");
        proof {
            reveal_strlit("");
            assert(blank@ =~= Seq::<char>::empty());
        }
        out.push(blank);
        j += 1;
    }
    let ghost mut n: int = 0;
    proof {
        assert forall|k: int| 0 <= k < size implies written(s, 0, k, (#[trigger] out@[k])@) by {}
    }
    let mut rest = vocab;
    while rest.len() > 0
        invariant
            0 <= n <= s.len(),
            n + rest@.len() == s.len(),
            rest@ == s.skip(n),
            out@.len() == size,
            forall|k: int| 0 <= k < size ==> written(s, n, k, (#[trigger] out@[k])@),
        decreases rest@.len(),
    {
        assert(rest@[0] == s[n]);
        let (token, id) = rest.remove(0);
        assert(rest@ =~= s.skip(n + 1));
        let idx: usize = id as usize;
        let ghost before = out@;
        let ghost text = token@;
        if idx < size {
            out.set(idx, token);
        }
        proof {
            assert forall|k: int| 0 <= k < size implies written(
                s,
                n + 1,
                k,
                (#[trigger] out@[k])@,
            ) by {
                if k == idx {
                    assert(s[n].1 == k && s[n].0@ == out@[k]@);
                } else {
                    assert(out@[k] == before[k]);
                    assert(written(s, n, k, before[k]@));
                    if exists|i: int|
                        0 <= i < n && (#[trigger] s[i]).1 == k && s[i].0@ == before[k]@ {
                        let i = choose|i: int|
                            0 <= i < n && (#[trigger] s[i]).1 == k && s[i].0@ == before[k]@;
                        assert(s[i].1 == k && s[i].0@ == before[k]@);
                    } else {
                        assert(s[n].1 != k);
                    }
                }
            }
            n = n + 1;
        }
    }
    proof {
        let r = views(out@);
        assert forall|k: int| 0 <= k < r.len() implies {
            if numbered(v, k) {
                v.dom().contains(#[trigger] r[k]) && v[r[k]] == k
            } else {
                r[k] == Seq::<char>::empty()
            }
        } by {
            assert(written(s, s.len() as int, k, out@[k]@));
            lemma_written(s, v, k, out@[k]@);
        }
    }
    out
}

/// The vocabulary is as large as the configuration says, but no larger than the
/// tokenizer's, where that has any token.
pub proof fn law_vocabulary_is_the_smaller(config_size: int, tokenizer_size: int)
    requires
        0 <= config_size,
        0 <= tokenizer_size,
    ensures
        tokenizer_size == 0 ==> capped(config_size, tokenizer_size) == config_size,
        tokenizer_size > 0 ==> capped(config_size, tokenizer_size) <= tokenizer_size && capped(
            config_size,
            tokenizer_size,
        ) <= config_size && (capped(config_size, tokenizer_size) == config_size || capped(
            config_size,
            tokenizer_size,
        ) == tokenizer_size),
{
}

/// The token of a number stands in the place of the number, and a place without
/// a number is empty.
pub proof fn law_tokens_stand_in_their_places(
    r: Seq<Seq<char>>,
    v: Map<Seq<char>, u32>,
    token: Seq<char>,
    i: int,
)
    requires
        ordered(r, v),
        0 <= i < r.len(),
    ensures
        v.dom().contains(token) && v[token] == i ==> v.dom().contains(r[i]) && v[r[i]] == i,
        (forall|t: Seq<char>| #[trigger] v.dom().contains(t) ==> v[t] != i) ==> r[i].len() == 0,
{
    if v.dom().contains(token) && v[token] == i {
        assert(numbered(v, i));
    }
    assert(r[i] == r[i]);
}

} // verus!
