//! What a grammar allows as the next token.
use vstd::prelude::*;

verus! {

/// The words of a mask over so many tokens.
pub open spec fn word_count(vocab_size: int) -> int {
    (vocab_size + 31) / 32
}

/// The mask has a word for the token.
pub open spec fn covers(words: Seq<i32>, id: int) -> bool {
    0 <= id && id / 32 < words.len()
}

/// The token's bit is set in its word.
pub open spec fn bit_set(word: i32, bit: u32) -> bool {
    (word & (1i32 << bit)) != 0
}

/// The mask allows the token.
pub open spec fn allows(words: Seq<i32>, id: int) -> bool {
    covers(words, id) && bit_set(words[id / 32], (id % 32) as u32)
}

/// Logits under a mask: those of tokens that the mask forbids are at the
/// floor.
pub open spec fn masked<F>(words: Seq<i32>, vocab_size: int, logits: Seq<F>, floor: F) -> Seq<F> {
    Seq::new(
        logits.len(),
        |i: int|
            if i < vocab_size && covers(words, i) && !allows(words, i) {
                floor
            } else {
                logits[i]
            },
    )
}

/// Where one request stands in its grammar: the tokens that may come next.
///
/// Bit `id % 32` of word `id / 32` is set where the token `id` is allowed.
#[derive(Debug, Clone)]
pub struct GrammarState {
    bitmask_data: Vec<i32>,
    vocab_size: usize,
}

impl GrammarState {
    /// The mask.
    pub closed spec fn words(self) -> Seq<i32> {
        self.bitmask_data@
    }

    /// The number of tokens.
    pub closed spec fn size(self) -> usize {
        self.vocab_size
    }

    /// The mask has a word for each token and none beyond them.
    pub open spec fn wf(self) -> bool {
        self.words().len() == word_count(self.size() as int)
    }

    /// A state in which every token is allowed.
    pub fn new(vocab_size: usize) -> (r: GrammarState)
        ensures
            r.wf(),
            r.size() == vocab_size,
            forall|i: int| 0 <= i < r.words().len() ==> #[trigger] r.words()[i] == -1,
    {
        let whole: usize = vocab_size / 32;
        let n: usize = if vocab_size % 32 == 0 {
            whole
        } else {
            whole + 1
        };
        let mut words: Vec<i32> = Vec::new();
        while words.len() < n
            invariant
                words@.len() <= n,
                forall|i: int| 0 <= i < words@.len() ==> #[trigger] words@[i] == -1,
            decreases n - words@.len(),
        {
            words.push(-1);
        }
        GrammarState { bitmask_data: words, vocab_size }
    }

    /// Takes what the matcher filled in for the next token, and whether that
    /// constrains anything. A matcher that has terminated is not asked: the
    /// grammar is satisfied and constrains nothing more.
    pub fn fill_bitmask(&mut self, filled: Option<(Vec<i32>, bool)>) -> (r: bool)
        requires
            old(self).wf(),
            filled matches Some((w, _)) ==> w@.len() == word_count(old(self).size() as int),
        ensures
            final(self).wf(),
            final(self).size() == old(self).size(),
            match filled {
                Some((w, constrains)) => r == constrains && final(self).words() == w@,
                None => !r && final(self).words() == old(self).words(),
            },
    {
        match filled {
            Some((w, constrains)) => {
                self.bitmask_data = w;
                constrains
            },
            None => false,
        }
    }

    /// The words of the mask.
    pub fn bitmask_data(&self) -> (r: &Vec<i32>)
        ensures
            r@ == self.words(),
    {
        &self.bitmask_data
    }

    /// Says whether the mask allows a token.
    pub fn is_token_allowed(&self, token_id: u32) -> (r: bool)
        ensures
            r == allows(self.words(), token_id as int),
    {
        allowed(&self.bitmask_data, token_id as usize)
    }

    /// Says whether a token is accepted. A matcher that has terminated is not
    /// asked: what comes past the end is not rejected by the grammar.
    pub fn accept_token(asked: Option<bool>) -> (r: bool)
        ensures
            r == match asked {
                Some(accepted) => accepted,
                None => true,
            },
    {
        match asked {
            Some(accepted) => accepted,
            None => true,
        }
    }

    /// Puts the logits of forbidden tokens at the floor.
    pub fn apply_bitmask_to_logits<F: Copy>(&self, logits: &mut Vec<F>, floor: F)
        ensures
            final(logits)@ == masked(self.words(), self.size() as int, old(logits)@, floor),
    {
        let ghost before = logits@;
        let ghost want = masked(self.words(), self.size() as int, before, floor);
        let n: usize = if logits.len() < self.vocab_size {
            logits.len()
        } else {
            self.vocab_size
        };
        let mut id: usize = 0;
        while id < n
            invariant
                id <= n <= before.len(),
                n <= self.vocab_size,
                n == before.len() || n == self.vocab_size,
                logits@.len() == before.len(),
                want == masked(self.words(), self.size() as int, before, floor),
                forall|k: int| 0 <= k < id ==> #[trigger] logits@[k] == want[k],
                forall|k: int| id <= k < before.len() ==> #[trigger] logits@[k] == before[k],
            decreases n - id,
        {
            if id / 32 < self.bitmask_data.len() && !allowed(&self.bitmask_data, id) {
                logits.set(id, floor);
            }
            id += 1;
        }
        assert(logits@ =~= want);
    }
}

/// Computes [`allows`].
fn allowed(words: &Vec<i32>, id: usize) -> (r: bool)
    ensures
        r == allows(words@, id as int),
{
    let word: usize = id / 32;
    let bit: u32 = (id % 32) as u32;
    if word >= words.len() {
        return false;
    }
    (words[word] & (1i32 << bit)) != 0
}

/// Before a matcher has spoken, every token is allowed.
pub proof fn law_fresh_allows_all(s: GrammarState, id: int)
    requires
        s.wf(),
        forall|i: int| 0 <= i < s.words().len() ==> #[trigger] s.words()[i] == -1,
        0 <= id < s.size(),
    ensures
        allows(s.words(), id),
{
    let bit = (id % 32) as u32;
    assert(bit < 32 ==> (-1i32 & (1i32 << bit)) != 0) by (bit_vector);
    assert(s.words()[id / 32] == -1);
}

/// Masking keeps the logit of every token that is allowed, and masking twice
/// is masking once.
pub proof fn law_mask_keeps_allowed<F>(words: Seq<i32>, vocab_size: int, logits: Seq<F>, floor: F)
    ensures
        masked(words, vocab_size, logits, floor).len() == logits.len(),
        forall|i: int|
            0 <= i < logits.len() && allows(words, i) ==> #[trigger] masked(
                words,
                vocab_size,
                logits,
                floor,
            )[i] == logits[i],
        masked(words, vocab_size, masked(words, vocab_size, logits, floor), floor) == masked(
            words,
            vocab_size,
            logits,
            floor,
        ),
{
    let once = masked(words, vocab_size, logits, floor);
    assert(masked(words, vocab_size, once, floor) =~= once);
}

/// Each token has a bit of its own: a mask with one bit allows the token of that
/// bit and no other.
pub proof fn law_tokens_have_bits(words: Seq<i32>, w: int, b: u32, c: u32)
    requires
        0 <= w < words.len(),
        b < 32,
        c < 32,
        words[w] == 1i32 << b,
    ensures
        allows(words, 32 * w + c) <==> b == c,
{
    assert(((1i32 << b) & (1i32 << c)) != 0 <==> b == c) by (bit_vector)
        requires
            b < 32,
            c < 32,
    ;
    assert((32 * w + c) / 32 == w);
    assert((32 * w + c) % 32 == c);
}

/// A token that the mask does not allow gets the floor, and no other does.
pub proof fn law_mask_floors_the_rest<F>(
    words: Seq<i32>,
    vocab_size: int,
    logits: Seq<F>,
    floor: F,
    i: int,
)
    requires
        0 <= i < logits.len(),
    ensures
        i < vocab_size && covers(words, i) && !allows(words, i) ==> masked(
            words,
            vocab_size,
            logits,
            floor,
        )[i] == floor,
        i >= vocab_size || allows(words, i) ==> masked(words, vocab_size, logits, floor)[i]
            == logits[i],
{
}

/// A mask speaks of thirty-two tokens for each of its words, from the first on.
pub proof fn law_words_cover_tokens(words: Seq<i32>, id: int)
    ensures
        covers(words, id) <==> 0 <= id < 32 * words.len(),
{
}

} // verus!
