//! Byte-pair-encoding tokenizer for LLaMA-family vocabularies.
use vstd::prelude::*;
use vstd::utf8::*;

use crate::bpe::{best_merge, best_merge_before, best_score, lemma_best_merge_before, lemma_merge_step_text, merge_step, spec_bpe, tokens_in_vocab};
use crate::gguf::{string_is, utf8_string};
use crate::json::{
    id_text_views, parse_json, spec_tokenizer_json, text_id_views, tokenizer_json_parts, json_document,
    TokenizerJsonError, TokenizerJsonParts,
};
use crate::util::{le_u32_at, read_u32_le};
use crate::vocab_index::{
    as_token, build_index, find_first, find_last, lemma_last_before, is_index_of, spec_find_first, spec_find_last, text_bytes,
    views,
};

verus! {

// ---------------------------------------------------------------------------
// The GPT-2 byte alphabet
// ---------------------------------------------------------------------------

/// Bytes that the GPT-2 alphabet writes as the character with the same code:
/// `!`..=`~`, 0xA1..=0xAC and 0xAE..=0xFF.
pub open spec fn is_printable_byte(b: u8) -> bool {
    (0x21 <= b <= 0x7E) || (0xA1 <= b <= 0xAC) || (0xAE <= b <= 0xFF)
}

/// The character code standing for byte `b` in the GPT-2 alphabet: the byte
/// itself when printable, otherwise 256 plus the number of non-printable
/// bytes below it.
pub open spec fn gpt2_codepoint(b: u8) -> u32 {
    if is_printable_byte(b) {
        b as u32
    } else if b <= 0x20 {
        (256 + b) as u32
    } else if b <= 0xA0 {
        (256 + 33 + (b - 0x7F)) as u32
    } else {
        (256 + 67) as u32
    }
}

/// The byte a character code stands for in the GPT-2 alphabet, if any.
pub open spec fn gpt2_byte_of(cp: u32) -> Option<u8> {
    if cp <= 0xFF && is_printable_byte(cp as u8) {
        Some(cp as u8)
    } else if 256 <= cp <= 256 + 32 {
        Some((cp - 256) as u8)
    } else if 256 + 33 <= cp <= 256 + 66 {
        Some((cp - 256 - 33 + 0x7F) as u8)
    } else if cp == 256 + 67 {
        Some(0xADu8)
    } else {
        None
    }
}

/// The GPT-2 alphabet is a bijection between the 256 bytes and its
/// characters: every byte's character maps back to the byte, and every
/// character that maps to a byte is that byte's character.
pub proof fn lemma_gpt2_alphabet_bijective(b: u8, cp: u32)
    ensures
        gpt2_byte_of(gpt2_codepoint(b)) == Some(b),
        gpt2_byte_of(cp) == Some(b) ==> gpt2_codepoint(b) == cp,
        gpt2_codepoint(b) < 0x800,
{
}

/// The character code standing for byte `b` (see [`gpt2_codepoint`]).
pub fn gpt2_byte_char(b: u8) -> (r: u32)
    ensures
        r == gpt2_codepoint(b),
{
    if (0x21 <= b && b <= 0x7E) || (0xA1 <= b && b <= 0xAC) || (0xAE <= b) {
        b as u32
    } else if b <= 0x20 {
        256 + b as u32
    } else if b <= 0xA0 {
        256 + 33 + (b - 0x7F) as u32
    } else {
        256 + 67
    }
}

/// The byte a character code stands for (see [`gpt2_byte_of`]).
pub fn gpt2_byte_for(cp: u32) -> (r: Option<u8>)
    ensures
        r == gpt2_byte_of(cp),
{
    if cp <= 0xFF && ((0x21 <= cp && cp <= 0x7E) || (0xA1 <= cp && cp <= 0xAC) || 0xAE <= cp) {
        Some(cp as u8)
    } else if 256 <= cp && cp <= 256 + 32 {
        Some((cp - 256) as u8)
    } else if 256 + 33 <= cp && cp <= 256 + 66 {
        Some((cp - 256 - 33 + 0x7F) as u8)
    } else if cp == 256 + 67 {
        Some(0xAD)
    } else {
        None
    }
}

/// The 256 character codes of the GPT-2 byte alphabet, indexed by byte.
pub fn build_gpt2_byte_table() -> (r: Vec<u32>)
    ensures
        r@.len() == 256,
        forall|b: int| 0 <= b < 256 ==> #[trigger] r@[b] == gpt2_codepoint(b as u8),
{
    let mut table: Vec<u32> = Vec::new();
    let mut b: usize = 0;
    while b < 256
        invariant
            b <= 256,
            table@.len() == b,
            forall|k: int| 0 <= k < b ==> #[trigger] table@[k] == gpt2_codepoint(k as u8),
        decreases 256 - b,
    {
        table.push(gpt2_byte_char(b as u8));
        b = b + 1;
    }
    table
}

/// Appends the UTF-8 encoding of a character code.
pub fn push_utf8(out: &mut Vec<u8>, cp: u32)
    requires
        is_scalar(cp),
    ensures
        final(out)@ == old(out)@ + encode_scalar(cp),
{
    if cp <= 0x7F {
        out.push((cp & 0x7F) as u8);
    } else if cp <= 0x7FF {
        out.push(0xC0 | ((cp >> 6) & 0x1F) as u8);
        out.push(0x80 | (cp & 0x3F) as u8);
    } else if cp <= 0xFFFF {
        out.push(0xE0 | ((cp >> 12) & 0x0F) as u8);
        out.push(0x80 | ((cp >> 6) & 0x3F) as u8);
        out.push(0x80 | (cp & 0x3F) as u8);
    } else {
        out.push(0xF0 | ((cp >> 18) & 0x7) as u8);
        out.push(0x80 | ((cp >> 12) & 0x3F) as u8);
        out.push(0x80 | ((cp >> 6) & 0x3F) as u8);
        out.push(0x80 | (cp & 0x3F) as u8);
    }
    assert(final(out)@ =~= old(out)@ + encode_scalar(cp));
}

// ---------------------------------------------------------------------------
// Scores
// ---------------------------------------------------------------------------

/// Merge priorities are kept as order keys: integers that compare as the
/// `f32` scores they stand for do. A float's key is derived from its bit pattern
/// (`f32_order_key`); the score of the merge rule that has `n` rules from it
/// to the end of the list is `SCORE_KEY_ZERO + n`; a token without a merge
/// rule has the key of 0.0, which is `SCORE_KEY_ZERO`.
pub const SCORE_KEY_ZERO: u64 = 0x8000_0000;

/// The key of -1e10, the score every merge candidate must exceed.
pub const SCORE_KEY_FLOOR: u64 = 0x2FEA_FD06;

/// The order key of an IEEE-754 single given by its bits: NaNs get 0 (below
/// everything, as no comparison with a NaN succeeds), -0.0 gets the key of
/// +0.0, negative values the complement of their bits, and positive values
/// their bits with the top bit set. For two non-NaN floats, the first is
/// greater than the second exactly when its key is.
pub open spec fn spec_f32_order_key(bits: u32) -> u64 {
    if bits & 0x7F80_0000 == 0x7F80_0000 && bits & 0x007F_FFFF != 0 {
        0
    } else if bits == 0x8000_0000 {
        SCORE_KEY_ZERO
    } else if bits & 0x8000_0000 != 0 {
        (!bits) as u64
    } else {
        (bits | 0x8000_0000) as u64
    }
}

/// Computes the order key of the float with the given bits.
pub fn f32_order_key(bits: u32) -> (r: u64)
    ensures
        r == spec_f32_order_key(bits),
{
    if bits & 0x7F80_0000 == 0x7F80_0000 && bits & 0x007F_FFFF != 0 {
        0
    } else if bits == 0x8000_0000 {
        SCORE_KEY_ZERO
    } else if bits & 0x8000_0000 != 0 {
        (!bits) as u64
    } else {
        (bits | 0x8000_0000) as u64
    }
}

// ---------------------------------------------------------------------------
// The tokenizer
// ---------------------------------------------------------------------------

/// A BPE tokenizer: a vocabulary of token texts with merge priorities, a
/// sorted index for finding tokens by text, and the byte-level alphabet
/// tables.
#[derive(Debug)]
pub struct Tokenizer {
    vocab: Vec<String>,
    pub bos: u32,
    pub eos: u32,
    vocab_scores: Vec<u64>,
    sorted_vocab: Vec<u32>,
    byte_level: bool,
    byte_to_token: Vec<u32>,
    token_to_byte: Vec<Option<u8>>,
    pub chat_template: Option<String>,
    pre: String,
    pub add_bos_token: bool,
    pub add_space_prefix: bool,
}

/// What a tokenizer is, for its contracts.
pub struct TokenizerModel {
    /// Token texts, by id.
    pub vocab: Seq<Seq<char>>,
    /// Merge priority keys, by id.
    pub scores: Seq<u64>,
    /// Whether texts are first turned into one token per byte through the
    /// GPT-2 alphabet (otherwise one token per character).
    pub byte_level: bool,
    /// The pre-tokenizer name.
    pub pre: Seq<char>,
    pub add_space_prefix: bool,
    pub bos: u32,
    pub eos: u32,
    pub add_bos_token: bool,
    pub chat_template: Option<Seq<char>>,
}

/// The token standing for byte `b`: byte-level tokenizers use the token
/// whose text is the byte's GPT-2 character (0 when there is none);
/// character-level ones use the byte-fallback token `b + 3`.
pub open spec fn spec_byte_token(m: TokenizerModel, b: u8) -> u32 {
    if m.byte_level {
        match spec_find_first(m.vocab, encode_scalar(gpt2_codepoint(b))) {
            Some(k) => k as u32,
            None => 0,
        }
    } else {
        (b + 3) as u32
    }
}

impl Tokenizer {
    pub closed spec fn model(&self) -> TokenizerModel {
        TokenizerModel {
            vocab: views(self.vocab@),
            scores: self.vocab_scores@,
            byte_level: self.byte_level,
            pre: self.pre@,
            add_space_prefix: self.add_space_prefix,
            bos: self.bos,
            eos: self.eos,
            add_bos_token: self.add_bos_token,
            chat_template: match self.chat_template {
                Some(t) => Some(t@),
                None => None,
            },
        }
    }

    /// The internal tables agree with the vocabulary.
    pub closed spec fn wf(&self) -> bool {
        &&& self.vocab@.len() <= u32::MAX
        &&& self.vocab_scores@.len() == self.vocab@.len()
        &&& is_index_of(views(self.vocab@), self.sorted_vocab@)
        &&& self.byte_to_token@.len() == 256
        &&& forall|b: u8| #[trigger] self.byte_to_token@[b as int] == spec_byte_token(self.model(), b)
        &&& forall|t: int|
            0 <= t < self.token_to_byte@.len() ==> (#[trigger] self.token_to_byte@[t] matches Some(b) ==> t
                < self.vocab@.len() && self.vocab@[t]@ == seq![gpt2_codepoint(b) as char])
    }
}

// ---------------------------------------------------------------------------
// Building tokenizers
// ---------------------------------------------------------------------------

/// Position of the first space byte at or after `i`.
pub open spec fn first_space(m: Seq<u8>, i: int) -> Option<int>
    decreases m.len() - i,
{
    if i < 0 || i >= m.len() {
        None
    } else if m[i] == 0x20 {
        Some(i)
    } else {
        first_space(m, i + 1)
    }
}

/// The text a merge rule "left right" produces: the bytes of the rule
/// without its first space; nothing when the rule has no space.
pub open spec fn merge_target(m: Seq<u8>) -> Option<Seq<u8>> {
    match first_space(m, 0) {
        Some(i) => Some(m.take(i) + m.skip(i + 1)),
        None => None,
    }
}

/// The merge priority keys after the first `k` merge rules: every token
/// starts at the key of 0.0, and rule `i` gives the token with its merged
/// text (the highest such id) the key of `merges.len() - i`, later rules
/// overriding earlier ones.
pub open spec fn merge_scores(vocab: Seq<Seq<char>>, merges: Seq<Seq<char>>, k: nat) -> Seq<u64>
    decreases k,
{
    if k == 0 {
        Seq::new(vocab.len(), |i: int| SCORE_KEY_ZERO)
    } else {
        let prev = merge_scores(vocab, merges, (k - 1) as nat);
        match merge_target(encode_utf8(merges[k - 1])) {
            Some(q) => match spec_find_last(vocab, q) {
                Some(idx) => prev.update(idx, (SCORE_KEY_ZERO + merges.len() - (k - 1)) as u64),
                None => prev,
            },
            None => prev,
        }
    }
}

proof fn lemma_merge_scores_len(vocab: Seq<Seq<char>>, merges: Seq<Seq<char>>, k: nat)
    ensures
        merge_scores(vocab, merges, k).len() == vocab.len(),
    decreases k,
{
    if k > 0 {
        lemma_merge_scores_len(vocab, merges, (k - 1) as nat);
        lemma_find_last_bound(vocab, merge_target(encode_utf8(merges[k - 1])));
    }
}

/// The token merge rule `r` produces: the token (the highest id) whose text
/// is the rule's text without its first space.
pub open spec fn rule_token(vocab: Seq<Seq<char>>, r: Seq<char>) -> Option<int> {
    match merge_target(encode_utf8(r)) {
        Some(q) => spec_find_last(vocab, q),
        None => None,
    }
}

proof fn lemma_merge_scores_prefix(vocab: Seq<Seq<char>>, merges: Seq<Seq<char>>, k: nat)
    requires
        k <= merges.len(),
        merges.len() <= u32::MAX,
    ensures
        forall|t: int|
            0 <= t < vocab.len() && (forall|j: int| 0 <= j < k ==> rule_token(vocab, merges[j]) != Some(t)) ==> (
            #[trigger] merge_scores(vocab, merges, k)[t]) == SCORE_KEY_ZERO,
        forall|t: int, j: int|
            #![trigger merge_scores(vocab, merges, k)[t], rule_token(vocab, merges[j])]
            0 <= t < vocab.len() && 0 <= j < k && rule_token(vocab, merges[j]) == Some(t) && (forall|j2: int|
                j < j2 < k ==> rule_token(vocab, merges[j2]) != Some(t)) ==> merge_scores(vocab, merges, k)[t]
                == SCORE_KEY_ZERO + merges.len() - j,
    decreases k,
{
    lemma_merge_scores_len(vocab, merges, k);
    if k > 0 {
        lemma_merge_scores_prefix(vocab, merges, (k - 1) as nat);
        lemma_merge_scores_len(vocab, merges, (k - 1) as nat);
        lemma_find_last_bound(vocab, merge_target(encode_utf8(merges[k - 1])));
        let prev = merge_scores(vocab, merges, (k - 1) as nat);
        let cur = merge_scores(vocab, merges, k);
        assert forall|t: int|
            0 <= t < vocab.len() && (forall|j: int| 0 <= j < k ==> rule_token(vocab, merges[j]) != Some(t)) implies (
            #[trigger] merge_scores(vocab, merges, k)[t]) == SCORE_KEY_ZERO by {
            assert(rule_token(vocab, merges[k - 1]) != Some(t));
            assert(forall|j: int| 0 <= j < k - 1 ==> rule_token(vocab, merges[j]) != Some(t));
            assert(cur[t] == prev[t]);
        }
        assert forall|t: int, j: int|
            #![trigger merge_scores(vocab, merges, k)[t], rule_token(vocab, merges[j])]
            0 <= t < vocab.len() && 0 <= j < k && rule_token(vocab, merges[j]) == Some(t) && (forall|j2: int|
                j < j2 < k ==> rule_token(vocab, merges[j2]) != Some(t)) implies merge_scores(vocab, merges, k)[t]
            == SCORE_KEY_ZERO + merges.len() - j by {
            if j == k - 1 {
                let q = merge_target(encode_utf8(merges[k - 1]))->0;
                assert(spec_find_last(vocab, q) == Some(t));
                assert(cur == prev.update(t, (SCORE_KEY_ZERO + merges.len() - (k - 1)) as u64));
                assert(cur[t] == (SCORE_KEY_ZERO + merges.len() - (k - 1)) as u64);
            } else {
                assert(rule_token(vocab, merges[k - 1]) != Some(t));
                assert(cur[t] == prev[t]);
                assert(forall|j2: int| j < j2 < k - 1 ==> rule_token(vocab, merges[j2]) != Some(t));
            }
        }
    }
}

/// Earlier merge rules have higher priority. The token of merge rule `j`
/// (when no later rule produces the same token) gets the key
/// `SCORE_KEY_ZERO + merges.len() - j`, so of two rules `i < j` with
/// different tokens, rule `i`'s token outranks rule `j`'s; a token that no
/// rule produces keeps the key of 0.0.
pub proof fn lemma_merge_scores_rank_rules(vocab: Seq<Seq<char>>, merges: Seq<Seq<char>>)
    requires
        merges.len() <= u32::MAX,
    ensures
        merge_scores(vocab, merges, merges.len()).len() == vocab.len(),
        forall|t: int|
            0 <= t < vocab.len() && (forall|j: int| 0 <= j < merges.len() ==> rule_token(vocab, merges[j]) != Some(t))
                ==> (#[trigger] merge_scores(vocab, merges, merges.len())[t]) == SCORE_KEY_ZERO,
        forall|t: int, j: int|
            #![trigger merge_scores(vocab, merges, merges.len())[t], rule_token(vocab, merges[j])]
            0 <= t < vocab.len() && 0 <= j < merges.len() && rule_token(vocab, merges[j]) == Some(t) && (forall|
                j2: int,
            | j < j2 < merges.len() ==> rule_token(vocab, merges[j2]) != Some(t)) ==> merge_scores(
                vocab,
                merges,
                merges.len(),
            )[t] == SCORE_KEY_ZERO + merges.len() - j,
        forall|i: int, j: int, ti: int, tj: int|
            #![trigger merge_scores(vocab, merges, merges.len())[ti], merge_scores(vocab, merges, merges.len())[tj], rule_token(vocab, merges[i]), rule_token(vocab, merges[j])]
            0 <= i < j < merges.len() && rule_token(vocab, merges[i]) == Some(ti) && rule_token(vocab, merges[j])
                == Some(tj) && 0 <= ti < vocab.len() && 0 <= tj < vocab.len() && (forall|k: int|
                i < k < merges.len() ==> rule_token(vocab, merges[k]) != Some(ti)) && (forall|k: int|
                j < k < merges.len() ==> rule_token(vocab, merges[k]) != Some(tj)) ==> merge_scores(vocab, merges, merges.len())[ti] > merge_scores(vocab, merges, merges.len())[tj],
{
    lemma_merge_scores_len(vocab, merges, merges.len());
    lemma_merge_scores_prefix(vocab, merges, merges.len());
}

proof fn lemma_find_last_bound(vocab: Seq<Seq<char>>, q: Option<Seq<u8>>)
    ensures
        q matches Some(t) ==> (spec_find_last(vocab, t) matches Some(i) ==> 0 <= i < vocab.len()),
{
    if let Some(t) = q {
        crate::vocab_index::lemma_last_before(vocab, t, vocab.len() as int);
    }
}

proof fn lemma_find_first_facts(vocab: Seq<Seq<char>>, q: Seq<u8>)
    ensures
        spec_find_first(vocab, q) matches Some(i) ==> 0 <= i < vocab.len() && text_bytes(vocab, i) == q,
{
    crate::vocab_index::lemma_first_from(vocab, q, 0);
}

/// The bytes of a string.
fn string_bytes(s: &String) -> (r: Vec<u8>)
    ensures
        r@ == encode_utf8(s@),
{
    let b = s.as_str().as_bytes();
    let mut out: Vec<u8> = Vec::new();
    let mut i: usize = 0;
    while i < b.len()
        invariant
            i <= b@.len(),
            out@ == b@.subrange(0, i as int),
        decreases b@.len() - i,
    {
        out.push(b[i]);
        i = i + 1;
        assert(out@ =~= b@.subrange(0, i as int));
    }
    assert(b@.subrange(0, i as int) =~= b@);
    out
}

/// The text a merge rule produces (see [`merge_target`]).
fn merge_target_exec(rule: &String) -> (r: Option<Vec<u8>>)
    ensures
        match r {
            Some(t) => merge_target(encode_utf8(rule@)) == Some(t@),
            None => merge_target(encode_utf8(rule@)) is None,
        },
{
    let b = rule.as_str().as_bytes();
    let ghost m = encode_utf8(rule@);
    let mut i: usize = 0;
    while i < b.len()
        invariant
            b@ == m,
            m == encode_utf8(rule@),
            i <= b@.len(),
            first_space(m, 0) == first_space(m, i as int),
        decreases b@.len() - i,
    {
        if b[i] == 0x20 {
            let mut out: Vec<u8> = Vec::new();
            let mut j: usize = 0;
            while j < b.len()
                invariant
                    b@ == m,
                    m == encode_utf8(rule@),
                    i < b@.len(),
                    m[i as int] == 0x20,
                    first_space(m, 0) == first_space(m, i as int),
                    j <= b@.len(),
                    out@ == if j <= i {
                        m.subrange(0, j as int)
                    } else {
                        m.take(i as int) + m.subrange(i + 1, j as int)
                    },
                decreases b@.len() - j,
            {
                if j != i {
                    out.push(b[j]);
                }
                j = j + 1;
                assert(out@ =~= if j <= i {
                    m.subrange(0, j as int)
                } else {
                    m.take(i as int) + m.subrange(i + 1, j as int)
                });
            }
            assert(out@ =~= m.take(i as int) + m.skip(i + 1));
            assert(first_space(m, i as int) == Some(i as int));
            assert(merge_target(m) == Some(m.take(i as int) + m.skip(i + 1)));
            return Some(out);
        }
        i = i + 1;
    }
    None
}

/// Merge priority keys for a vocabulary and its merge rules (see [`merge_scores`]).
fn scores_from_merges(vocab: &Vec<String>, index: &Vec<u32>, merges: &Vec<String>) -> (r: Vec<u64>)
    requires
        is_index_of(views(vocab@), index@),
        merges@.len() <= u32::MAX,
    ensures
        r@ == merge_scores(views(vocab@), views(merges@), merges@.len() as nat),
{
    let ghost v = views(vocab@);
    let ghost ms = views(merges@);
    let mut scores: Vec<u64> = Vec::new();
    let mut i: usize = 0;
    while i < vocab.len()
        invariant
            i <= vocab@.len(),
            scores@ == Seq::new(i as nat, |k: int| SCORE_KEY_ZERO),
        decreases vocab@.len() - i,
    {
        scores.push(SCORE_KEY_ZERO);
        i = i + 1;
        assert(scores@ =~= Seq::new(i as nat, |k: int| SCORE_KEY_ZERO));
    }
    let n = merges.len();
    let mut k: usize = 0;
    while k < n
        invariant
            v == views(vocab@),
            ms == views(merges@),
            n == merges@.len(),
            n <= u32::MAX,
            k <= n,
            is_index_of(v, index@),
            scores@ == merge_scores(v, ms, k as nat),
        decreases n - k,
    {
        proof {
            lemma_merge_scores_len(v, ms, k as nat);
            lemma_find_last_bound(v, merge_target(encode_utf8(ms[k as int])));
        }
        match merge_target_exec(&merges[k]) {
            Some(q) => match find_last(vocab, index, &q) {
                Some(idx) => {
                    scores.set(idx as usize, SCORE_KEY_ZERO + (n - k) as u64);
                },
                None => {},
            },
            None => {},
        }
        k = k + 1;
    }
    scores
}

/// Facts about finding the text of a single character code.
proof fn lemma_single_char_text(vocab: Seq<Seq<char>>, t: int, cp: u32)
    requires
        cp < 0x800,
        0 <= t < vocab.len(),
        text_bytes(vocab, t) == encode_scalar(cp),
    ensures
        vocab[t] == seq![cp as char],
{
    let c = cp as char;
    assert(c as u32 == cp);
    assert(encode_utf8(seq![c]) =~= encode_scalar(cp) + encode_utf8(seq![c].drop_first()));
    assert(seq![c].drop_first() =~= Seq::<char>::empty());
    vstd::utf8::encode_utf8_decode_utf8(vocab[t]);
    vstd::utf8::encode_utf8_decode_utf8(seq![c]);
}

impl Tokenizer {
    /// Byte alphabet tables of a byte-level tokenizer: for each byte, the
    /// token whose text is its GPT-2 character; and for each token id, the
    /// byte it stands for.
    fn byte_tables(vocab: &Vec<String>, index: &Vec<u32>) -> (r: (Vec<u32>, Vec<Option<u8>>))
        requires
            is_index_of(views(vocab@), index@),
        ensures
            r.0@.len() == 256,
            forall|b: u8| #[trigger] r.0@[b as int] == match spec_find_first(views(vocab@), encode_scalar(gpt2_codepoint(b))) {
                Some(k) => k as u32,
                None => 0u32,
            },
            forall|t: int|
                0 <= t < r.1@.len() ==> (#[trigger] r.1@[t] matches Some(b) ==> t < vocab@.len() && vocab@[t]@
                    == seq![gpt2_codepoint(b) as char]),
    {
        let ghost v = views(vocab@);
        let n = vocab.len();
        let len = if n > 256 {
            n
        } else {
            256
        };
        let mut token_to_byte: Vec<Option<u8>> = Vec::new();
        let mut i: usize = 0;
        while i < len
            invariant
                i <= len,
                token_to_byte@.len() == i,
                forall|t: int| 0 <= t < i ==> #[trigger] token_to_byte@[t] is None,
            decreases len - i,
        {
            token_to_byte.push(None);
            i = i + 1;
        }
        let mut byte_to_token: Vec<u32> = Vec::new();
        let mut b: usize = 0;
        while b < 256
            invariant
                v == views(vocab@),
                v.len() == vocab@.len(),
                n == vocab@.len(),
                is_index_of(v, index@),
                b <= 256,
                byte_to_token@.len() == b,
                token_to_byte@.len() == len,
                len >= n,
                forall|c: u8| c < b ==> #[trigger] byte_to_token@[c as int] == match spec_find_first(v, encode_scalar(gpt2_codepoint(c))) {
                    Some(k) => k as u32,
                    None => 0u32,
                },
                forall|t: int|
                    0 <= t < token_to_byte@.len() ==> (#[trigger] token_to_byte@[t] matches Some(c) ==> t < vocab@.len()
                        && vocab@[t]@ == seq![gpt2_codepoint(c) as char]),
            decreases 256 - b,
        {
            let cp = gpt2_byte_char(b as u8);
            let mut q: Vec<u8> = Vec::new();
            push_utf8(&mut q, cp);
            assert(q@ =~= encode_scalar(cp));
            proof {
                lemma_find_first_facts(v, q@);
            }
            match find_first(vocab, index, &q) {
                Some(t) => {
                    proof {
                        lemma_single_char_text(v, t as int, cp);
                    }
                    byte_to_token.push(t);
                    token_to_byte.set(t as usize, Some(b as u8));
                },
                None => {
                    byte_to_token.push(0);
                },
            }
            b = b + 1;
        }
        (byte_to_token, token_to_byte)
    }

    /// A byte-level tokenizer from the vocabulary and merge rules stored in a
    /// GGUF file. Merge rule `i` ("left right") gives the token with text
    /// "leftright" the priority `merges.len() - i`.
    pub fn from_gguf_parts(
        vocab: Vec<String>,
        merges: Vec<String>,
        bos_id: u32,
        eos_id: u32,
        pre: String,
        add_bos_token: bool,
        add_space_prefix: bool,
    ) -> (r: Tokenizer)
        requires
            vocab@.len() <= u32::MAX,
            merges@.len() <= u32::MAX,
        ensures
            r.wf(),
            r.model() == (TokenizerModel {
                vocab: views(vocab@),
                scores: merge_scores(views(vocab@), views(merges@), merges@.len() as nat),
                byte_level: true,
                pre: pre@,
                add_space_prefix,
                bos: bos_id,
                eos: eos_id,
                add_bos_token,
                chat_template: None,
            }),
    {
        let sorted_vocab = build_index(&vocab);
        let vocab_scores = scores_from_merges(&vocab, &sorted_vocab, &merges);
        let (byte_to_token, token_to_byte) = Self::byte_tables(&vocab, &sorted_vocab);
        proof {
            lemma_merge_scores_len(views(vocab@), views(merges@), merges@.len() as nat);
        }
        Tokenizer {
            vocab,
            bos: bos_id,
            eos: eos_id,
            vocab_scores,
            sorted_vocab,
            byte_level: true,
            byte_to_token,
            token_to_byte,
            chat_template: None,
            pre,
            add_bos_token,
            add_space_prefix,
        }
    }
}

// ---------------------------------------------------------------------------
// Encoding
// ---------------------------------------------------------------------------

/// Appends the bytes of a slice.
fn push_bytes(out: &mut Vec<u8>, b: &[u8])
    ensures
        final(out)@ == old(out)@ + b@,
{
    let ghost start = out@;
    let mut i: usize = 0;
    while i < b.len()
        invariant
            i <= b@.len(),
            out@ == start + b@.subrange(0, i as int),
        decreases b@.len() - i,
    {
        out.push(b[i]);
        i = i + 1;
        assert(out@ =~= start + b@.subrange(0, i as int));
    }
    assert(b@.subrange(0, i as int) =~= b@);
}

/// A best merge found so far, as positions and ids.
pub open spec fn best_view(best: Option<(usize, u32)>) -> Option<(int, int)> {
    match best {
        Some((i, id)) => Some((i as int, id as int)),
        None => None,
    }
}

/// The tokens of a byte sequence, one per byte.
pub open spec fn spec_byte_encode(m: TokenizerModel, bytes: Seq<u8>) -> Seq<u32> {
    bytes.map_values(|b: u8| spec_byte_token(m, b))
}

impl Tokenizer {
    /// The bytes of token `id`'s text.
    fn token_bytes(&self, id: u32) -> (r: &[u8])
        requires
            self.wf(),
            id < self.model().vocab.len(),
        ensures
            r@ == text_bytes(self.model().vocab, id as int),
    {
        self.vocab[id as usize].as_str().as_bytes()
    }

    /// One token per byte.
    fn byte_encode(&self, bytes: &[u8]) -> (r: Vec<u32>)
        requires
            self.wf(),
        ensures
            r@ == spec_byte_encode(self.model(), bytes@),
    {
        let mut tokens: Vec<u32> = Vec::new();
        let mut i: usize = 0;
        while i < bytes.len()
            invariant
                self.wf(),
                i <= bytes@.len(),
                tokens@ == spec_byte_encode(self.model(), bytes@.subrange(0, i as int)),
            decreases bytes@.len() - i,
        {
            tokens.push(self.byte_to_token[bytes[i] as usize]);
            i = i + 1;
            assert(tokens@ =~= spec_byte_encode(self.model(), bytes@.subrange(0, i as int)));
        }
        assert(bytes@.subrange(0, i as int) =~= bytes@);
        tokens
    }

    /// Repeatedly merges the adjacent pair whose joined text is the token
    /// with the highest score (the first such pair on ties), until no pair's
    /// joined text scores above the floor.
    fn bpe_merge(&self, tokens: &mut Vec<u32>)
        requires
            self.wf(),
            old(tokens)@.len() < 2 || tokens_in_vocab(self.model(), old(tokens)@),
        ensures
            final(tokens)@ == spec_bpe(self.model(), old(tokens)@),
            tokens_in_vocab(self.model(), old(tokens)@) ==> tokens_in_vocab(self.model(), final(tokens)@),
    {
        let ghost m = self.model();
        loop
            invariant
                self.wf(),
                m == self.model(),
                tokens@.len() < 2 || tokens_in_vocab(m, tokens@),
                tokens_in_vocab(m, old(tokens)@) ==> tokens_in_vocab(m, tokens@),
                spec_bpe(m, tokens@) == spec_bpe(m, old(tokens)@),
            ensures
                tokens@ == spec_bpe(m, old(tokens)@),
            decreases tokens@.len(),
        {
            let n = tokens.len();
            if n < 2 {
                break;
            }
            let mut best: Option<(usize, u32)> = None;
            let mut best_key: u64 = SCORE_KEY_FLOOR;
            let mut idx: usize = 0;
            while idx + 1 < n
                invariant
                    self.wf(),
                    m == self.model(),
                    n == tokens@.len(),
                    n >= 2,
                    idx + 1 <= n,
                    tokens_in_vocab(m, tokens@),
                    best_view(best) == best_merge_before(m, tokens@, idx as int),
                    best_key == best_score(m, best_merge_before(m, tokens@, idx as int)),
                decreases n - idx,
            {
                proof {
                    lemma_best_merge_before(m, tokens@, idx as int);
                }
                let mut q: Vec<u8> = Vec::new();
                push_bytes(&mut q, self.token_bytes(tokens[idx]));
                push_bytes(&mut q, self.token_bytes(tokens[idx + 1]));
                proof {
                    lemma_find_first_facts(m.vocab, q@);
                }
                match find_first(&self.vocab, &self.sorted_vocab, &q) {
                    Some(id) => {
                        let s = self.vocab_scores[id as usize];
                        if s > best_key {
                            best = Some((idx, id));
                            best_key = s;
                        }
                    },
                    None => {},
                }
                idx = idx + 1;
            }
            proof {
                lemma_best_merge_before(m, tokens@, n - 1);
            }
            match best {
                None => {
                    break;
                },
                Some((i, id)) => {
                    proof {
                        lemma_merge_step_text(m, tokens@, i as int, id as int);
                    }
                    let ghost before = tokens@;
                    tokens.set(i, id);
                    tokens.remove(i + 1);
                    assert(tokens@ =~= merge_step(before, i as int, id as int));
                },
            }
        }
    }
}

/// The tokens of one character in a character-level vocabulary: the token
/// whose text is the character, else one byte-fallback token per UTF-8 byte
/// (`byte + 3`).
pub open spec fn spec_char_tokens(m: TokenizerModel, c: char) -> Seq<u32> {
    match spec_find_first(m.vocab, encode_scalar(c as u32)) {
        Some(k) => seq![k as u32],
        None => encode_scalar(c as u32).map_values(|b: u8| (b + 3) as u32),
    }
}

/// The tokens of a text in a character-level vocabulary, character by
/// character.
pub open spec fn spec_char_encode(m: TokenizerModel, s: Seq<char>) -> Seq<u32>
    decreases s.len(),
{
    if s.len() == 0 {
        Seq::empty()
    } else {
        spec_char_encode(m, s.drop_last()) + spec_char_tokens(m, s.last())
    }
}

impl Tokenizer {
    /// One token per character, falling back to byte tokens.
    fn char_encode(&self, text: &str) -> (r: Vec<u32>)
        requires
            self.wf(),
        ensures
            r@ == spec_char_encode(self.model(), text@),
    {
        broadcast use vstd::string::axiom_spec_iter;

        let ghost m = self.model();
        let mut tokens: Vec<u32> = Vec::new();
        for c in it: text.chars()
            invariant
                self.wf(),
                m == self.model(),
                it.seq() == text@,
                tokens@ == spec_char_encode(m, text@.take(it.index() as int)),
        {
            proof {
                vstd::utf8::char_is_scalar(c);
                lemma_find_first_facts(m.vocab, encode_scalar(c as u32));
            }
            let ghost before = tokens@;
            let mut q: Vec<u8> = Vec::new();
            push_utf8(&mut q, c as u32);
            match find_first(&self.vocab, &self.sorted_vocab, &q) {
                Some(k) => {
                    tokens.push(k);
                },
                None => {
                    let mut j: usize = 0;
                    while j < q.len()
                        invariant
                            j <= q@.len(),
                            q@ == encode_scalar(c as u32),
                            tokens@ == before + q@.subrange(0, j as int).map_values(|b: u8| (b + 3) as u32),
                        decreases q@.len() - j,
                    {
                        tokens.push(q[j] as u32 + 3);
                        j = j + 1;
                        assert(tokens@ =~= before + q@.subrange(0, j as int).map_values(|b: u8| (b + 3) as u32));
                    }
                    assert(q@.subrange(0, j as int) =~= q@);
                },
            }
            assert(text@.take(it.index() + 1).drop_last() =~= text@.take(it.index() as int));
            assert(tokens@ =~= spec_char_encode(m, text@.take(it.index() + 1)));
        }
        assert(text@.take(text@.len() as int) =~= text@);
        tokens
    }
}

/// The tokenizer can turn any text into tokens of its vocabulary: a
/// byte-level vocabulary is not empty, and a character-level one holds the
/// byte-fallback tokens 3..=258.
pub open spec fn can_encode(m: TokenizerModel) -> bool {
    if m.byte_level {
        m.vocab.len() > 0
    } else {
        m.vocab.len() > 258
    }
}

/// The tokens a text starts out as before merging, without a pre-tokenizer:
/// its byte tokens for a byte-level vocabulary, else its character tokens
/// with their byte fallbacks (`byte + 3`).
pub open spec fn spec_initial_tokens(m: TokenizerModel, text: Seq<char>) -> Seq<u32> {
    if m.byte_level {
        spec_byte_encode(m, encode_utf8(text))
    } else {
        spec_char_encode(m, text)
    }
}

/// The begin marker, when asked for.
pub open spec fn bos_prefix(m: TokenizerModel, bos: bool) -> Seq<u32> {
    if bos {
        seq![m.bos]
    } else {
        Seq::empty()
    }
}

/// A text can be encoded when merging looks up only tokens of the
/// vocabulary. GPT-2 style pre-tokenizers merge each piece's byte tokens, so
/// every byte token of the (space-prefixed) text must lie in the vocabulary.
/// Otherwise the begin marker (when asked for) and the text's starting tokens
/// are merged together; a single token is left as it is, two or more must all
/// lie in the vocabulary.
pub open spec fn can_encode_text(m: TokenizerModel, text: Seq<char>, bos: bool) -> bool {
    if is_gpt2_pre(m.pre) {
        tokens_in_vocab(m, spec_byte_encode(m, encode_utf8(spaced_text(m, text))))
    } else {
        let input = bos_prefix(m, bos) + spec_initial_tokens(m, text);
        input.len() < 2 || tokens_in_vocab(m, input)
    }
}

/// A tokenizer that can encode every text can encode each one.
pub proof fn lemma_can_encode_text(m: TokenizerModel, text: Seq<char>)
    requires
        can_encode(m),
        m.vocab.len() <= u32::MAX,
    ensures
        can_encode_text(m, text, false),
{
    if is_gpt2_pre(m.pre) {
        lemma_byte_tokens_in_vocab(m, encode_utf8(spaced_text(m, text)));
    } else {
        if m.byte_level {
            lemma_byte_tokens_in_vocab(m, encode_utf8(text));
        } else {
            lemma_char_tokens_in_vocab(m, text);
        }
        assert(bos_prefix(m, false) + spec_initial_tokens(m, text) =~= spec_initial_tokens(m, text));
    }
}

proof fn lemma_byte_tokens_subrange(m: TokenizerModel, bytes: Seq<u8>, start: int, end: int)
    requires
        tokens_in_vocab(m, spec_byte_encode(m, bytes)),
        0 <= start <= end <= bytes.len(),
    ensures
        tokens_in_vocab(m, spec_byte_encode(m, bytes.subrange(start, end))),
{
    let sub = spec_byte_encode(m, bytes.subrange(start, end));
    assert forall|i: int| 0 <= i < sub.len() implies (#[trigger] sub[i]) < m.vocab.len() by {
        assert(sub[i] == spec_byte_encode(m, bytes)[start + i]);
    }
}

proof fn lemma_byte_tokens_in_vocab(m: TokenizerModel, bytes: Seq<u8>)
    requires
        can_encode(m),
    ensures
        tokens_in_vocab(m, spec_byte_encode(m, bytes)),
{
    assert forall|i: int| 0 <= i < spec_byte_encode(m, bytes).len() implies (#[trigger] spec_byte_encode(m, bytes)[i]) < m.vocab.len() by {
        lemma_find_first_facts(m.vocab, encode_scalar(gpt2_codepoint(bytes[i])));
    }
}

proof fn lemma_char_tokens_in_vocab(m: TokenizerModel, s: Seq<char>)
    requires
        can_encode(m),
        !m.byte_level,
        m.vocab.len() <= u32::MAX,
    ensures
        tokens_in_vocab(m, spec_char_encode(m, s)),
    decreases s.len(),
{
    if s.len() > 0 {
        lemma_char_tokens_in_vocab(m, s.drop_last());
        lemma_find_first_facts(m.vocab, encode_scalar(s.last() as u32));
        let a = spec_char_encode(m, s.drop_last());
        let b = spec_char_tokens(m, s.last());
        assert forall|i: int| 0 <= i < (a + b).len() implies (#[trigger] (a + b)[i]) < m.vocab.len() by {
            if i >= a.len() {
                assert((a + b)[i] == b[i - a.len()]);
                if spec_find_first(m.vocab, encode_scalar(s.last() as u32)) is None {
                    let e = encode_scalar(s.last() as u32);
                    assert(b[i - a.len()] == (e[i - a.len()] + 3) as u32);
                }
            } else {
                assert((a + b)[i] == a[i]);
            }
        }
    }
}

/// The GPT-2 pre-tokenizer pattern: English contractions, and runs of
/// letters, of digits and of other symbols (each with an optional leading
/// space), and runs of whitespace.
pub const GPT2_PATTERN: &'static str = "'(?:[sdmt]|ll|ve|re)| ?\\p{L}+| ?\\p{N}+| ?[^\\s\\p{L}\\p{N}]+|\\s+";

/// The byte ranges `(start, end)` of the successive non-overlapping matches
/// of the regular expression `pattern` in `text`, as the `regex` crate finds
/// them; `None` when the pattern does not compile.
pub uninterp spec fn regex_match_ranges(pattern: Seq<char>, text: Seq<char>) -> Option<Seq<(usize, usize)>>;

/// Ranges that start no later than they end, end within `len`, and come one
/// after another without overlapping.
pub open spec fn ranges_ordered(v: Seq<(usize, usize)>, len: nat) -> bool {
    &&& forall|k: int| 0 <= k < v.len() ==> (#[trigger] v[k]).0 <= v[k].1 <= len
    &&& forall|k: int| 0 < k < v.len() ==> v[k - 1].1 <= (#[trigger] v[k]).0
}

/// Compiles `pattern` with `regex::Regex::new` and lists the `(start, end)`
/// offsets of the matches that `Regex::find_iter` yields over `text`, in
/// order; `None` when the pattern does not compile. The regex crate documents
/// the offsets as byte offsets into the text with `start <= end`, and the
/// matches as successive and non-overlapping; that is all that is claimed of
/// them beyond their name.
#[verifier::external_body]
fn find_match_ranges(pattern: &str, text: &str) -> (r: Option<Vec<(usize, usize)>>)
    ensures
        r matches Some(v) ==> regex_match_ranges(pattern@, text@) == Some(v@) && ranges_ordered(
            v@,
            encode_utf8(text@).len(),
        ),
        r is None ==> regex_match_ranges(pattern@, text@) is None,
{
    match regex::Regex::new(pattern) {
        Ok(re) => {
            let mut out = Vec::new();
            for m in re.find_iter(text) {
                out.push((m.start(), m.end()));
            }
            Some(out)
        },
        Err(_) => None,
    }
}

/// The tokens of one pre-tokenized piece `bytes[start..end]`: its byte tokens
/// merged; nothing for a range that does not fit the bytes.
pub open spec fn piece_tokens(m: TokenizerModel, bytes: Seq<u8>, piece: (usize, usize)) -> Seq<u32> {
    if piece.0 <= piece.1 && piece.1 <= bytes.len() {
        spec_bpe(m, spec_byte_encode(m, bytes.subrange(piece.0 as int, piece.1 as int)))
    } else {
        Seq::empty()
    }
}

/// The tokens of all pieces, in order.
pub open spec fn spec_pieces_tokens(m: TokenizerModel, bytes: Seq<u8>, pieces: Seq<(usize, usize)>) -> Seq<u32>
    decreases pieces.len(),
{
    if pieces.len() == 0 {
        Seq::empty()
    } else {
        spec_pieces_tokens(m, bytes, pieces.drop_last()) + piece_tokens(m, bytes, pieces.last())
    }
}

/// The pre-tokenizers that split a text with [`GPT2_PATTERN`] first.
pub open spec fn is_gpt2_pre(pre: Seq<char>) -> bool {
    pre == "gpt2"@ || pre == "smollm"@
}

/// The text the GPT-2 pre-tokenizer splits: with a space put in front when
/// the tokenizer asks for one and the text does not start with a space.
pub open spec fn spaced_text(m: TokenizerModel, text: Seq<char>) -> Seq<char> {
    if m.add_space_prefix && !(text.len() > 0 && text[0] == ' ') {
        seq![' '] + text
    } else {
        text
    }
}

/// The tokens of a text, without the begin and end markers.
pub open spec fn spec_encode_body(m: TokenizerModel, text: Seq<char>) -> Seq<u32> {
    if is_gpt2_pre(m.pre) {
        let t = spaced_text(m, text);
        match regex_match_ranges(GPT2_PATTERN@, t) {
            Some(p) => spec_pieces_tokens(m, encode_utf8(t), p),
            None => Seq::empty(),
        }
    } else if m.byte_level {
        spec_bpe(m, spec_byte_encode(m, encode_utf8(text)))
    } else {
        spec_bpe(m, spec_char_encode(m, text))
    }
}

/// The tokens of a text, with the begin marker when `bos` and the end marker
/// behind when `eos`. Without a GPT-2 style pre-tokenizer the begin marker is
/// merged together with the text's starting tokens, so it can join the first
/// of them; with one it stands in front of the pieces' tokens.
pub open spec fn spec_encode(m: TokenizerModel, text: Seq<char>, bos: bool, eos: bool) -> Seq<u32> {
    (if bos && !is_gpt2_pre(m.pre) {
        spec_bpe(m, seq![m.bos] + spec_initial_tokens(m, text))
    } else {
        bos_prefix(m, bos) + spec_encode_body(m, text)
    }) + (if eos {
        seq![m.eos]
    } else {
        Seq::empty()
    })
}

/// The markers frame the plain encoding: the begin marker (when asked for),
/// the tokens of the text alone, and the end marker (when asked for). This
/// holds whenever the begin marker is not merged with the text, that is
/// without it or with a GPT-2 style pre-tokenizer.
pub proof fn lemma_encode_framing(m: TokenizerModel, text: Seq<char>, bos: bool, eos: bool)
    requires
        is_gpt2_pre(m.pre) || !bos,
    ensures
        spec_encode(m, text, bos, eos) == bos_prefix(m, bos) + spec_encode(m, text, false, false) + (if eos {
            seq![m.eos]
        } else {
            Seq::empty()
        }),
{
    assert(bos_prefix(m, false) + spec_encode_body(m, text) =~= spec_encode_body(m, text));
    assert(spec_encode(m, text, false, false) =~= spec_encode_body(m, text));
}

impl Tokenizer {
    /// One token per byte of `bytes[start..end]`.
    fn byte_encode_range(&self, bytes: &[u8], start: usize, end: usize) -> (r: Vec<u32>)
        requires
            self.wf(),
            start <= end <= bytes@.len(),
        ensures
            r@ == spec_byte_encode(self.model(), bytes@.subrange(start as int, end as int)),
    {
        let mut tokens: Vec<u32> = Vec::new();
        let mut i: usize = start;
        while i < end
            invariant
                self.wf(),
                start <= i <= end,
                end <= bytes@.len(),
                tokens@ == spec_byte_encode(self.model(), bytes@.subrange(start as int, i as int)),
            decreases end - i,
        {
            tokens.push(self.byte_to_token[bytes[i] as usize]);
            i = i + 1;
            assert(tokens@ =~= spec_byte_encode(self.model(), bytes@.subrange(start as int, i as int)));
        }
        tokens
    }

    /// Encodes each pre-tokenized piece `bytes[start..end]` by its byte
    /// tokens and merges them, joining the results; a range that does not fit
    /// the bytes gives nothing.
    pub fn encode_pieces(&self, bytes: &[u8], pieces: &[(usize, usize)]) -> (r: Vec<u32>)
        requires
            self.wf(),
            tokens_in_vocab(self.model(), spec_byte_encode(self.model(), bytes@)),
        ensures
            r@ == spec_pieces_tokens(self.model(), bytes@, pieces@),
    {
        let ghost m = self.model();
        let mut tokens: Vec<u32> = Vec::new();
        let mut k: usize = 0;
        while k < pieces.len()
            invariant
                self.wf(),
                m == self.model(),
                tokens_in_vocab(m, spec_byte_encode(m, bytes@)),
                k <= pieces@.len(),
                tokens@ == spec_pieces_tokens(m, bytes@, pieces@.subrange(0, k as int)),
            decreases pieces@.len() - k,
        {
            let (start, end) = pieces[k];
            let ghost before = tokens@;
            if start <= end && end <= bytes.len() {
                let mut seg = self.byte_encode_range(bytes, start, end);
                proof {
                    lemma_byte_tokens_subrange(m, bytes@, start as int, end as int);
                }
                self.bpe_merge(&mut seg);
                tokens.append(&mut seg);
            }
            assert(pieces@.subrange(0, k + 1).drop_last() =~= pieces@.subrange(0, k as int));
            k = k + 1;
            assert(tokens@ =~= spec_pieces_tokens(m, bytes@, pieces@.subrange(0, k as int)));
        }
        assert(pieces@.subrange(0, k as int) =~= pieces@);
        tokens
    }

    /// The tokens of a non-empty text (see [`spec_encode`]). GPT-2 style
    /// pre-tokenizers split the text (after putting a space in front, when
    /// configured) with [`GPT2_PATTERN`] and merge each piece's byte tokens,
    /// after the begin marker; otherwise the begin marker and the whole
    /// text's byte tokens (byte-level vocabularies) or character tokens are
    /// merged together. The end marker comes last.
    pub fn encode(&self, text: &str, bos: bool, eos: bool) -> (r: Vec<u32>)
        requires
            self.wf(),
            can_encode_text(self.model(), text@, bos),
            text@.len() > 0,
        ensures
            r@ == spec_encode(self.model(), text@, bos, eos),
    {
        let ghost m = self.model();
        let mut tokens: Vec<u32> = Vec::new();
        if bos {
            tokens.push(self.bos);
        }
        assert(tokens@ == bos_prefix(m, bos));
        if string_is(&self.pre, "gpt2") || string_is(&self.pre, "smollm") {
            let spaced: String = if self.add_space_prefix && text.get_char(0) != ' ' {
                let mut s = String::from_str(" ");
                s.append(text);
                proof {
                    reveal_strlit(" ");
                }
                assert(s@ =~= seq![' '] + text@);
                s
            } else {
                String::from_str(text)
            };
            assert(spaced@ == spaced_text(m, text@));
            match find_match_ranges(GPT2_PATTERN, spaced.as_str()) {
                Some(p) => {
                    let mut seg = self.encode_pieces(spaced.as_str().as_bytes(), p.as_slice());
                    tokens.append(&mut seg);
                },
                None => {},
            }
            assert(tokens@ == bos_prefix(m, bos) + spec_encode_body(m, text@));
        } else {
            let mut seg = if self.byte_level {
                self.byte_encode(text.as_bytes())
            } else {
                self.char_encode(text)
            };
            assert(seg@ == spec_initial_tokens(m, text@));
            tokens.append(&mut seg);
            self.bpe_merge(&mut tokens);
            assert(bos_prefix(m, false) + spec_initial_tokens(m, text@) =~= spec_initial_tokens(m, text@));
        }
        if eos {
            tokens.push(self.eos);
        }
        assert(tokens@ =~= spec_encode(m, text@, bos, eos));
        tokens
    }
}

// ---------------------------------------------------------------------------
// Decoding
// ---------------------------------------------------------------------------

/// The bytes a character of a byte-level token's text stands for: the byte
/// whose GPT-2 character it is, else the character's own UTF-8 bytes.
pub open spec fn char_decoded_bytes(c: char) -> Seq<u8> {
    match gpt2_byte_of(c as u32) {
        Some(b) => seq![b],
        None => encode_scalar(c as u32),
    }
}

/// The bytes a byte-level token text stands for, character by character.
pub open spec fn text_decoded_bytes(t: Seq<char>) -> Seq<u8>
    decreases t.len(),
{
    if t.len() == 0 {
        Seq::empty()
    } else {
        text_decoded_bytes(t.drop_last()) + char_decoded_bytes(t.last())
    }
}

/// The bytes of a token sequence in a byte-level vocabulary; ids outside
/// the vocabulary stand for nothing.
pub open spec fn spec_decoded_bytes(m: TokenizerModel, ids: Seq<u32>) -> Seq<u8>
    decreases ids.len(),
{
    if ids.len() == 0 {
        Seq::empty()
    } else {
        spec_decoded_bytes(m, ids.drop_last()) + if ids.last() < m.vocab.len() {
            text_decoded_bytes(m.vocab[ids.last() as int])
        } else {
            Seq::empty()
        }
    }
}

/// The joined texts of the tokens that are in the vocabulary.
pub open spec fn spec_decoded_text(m: TokenizerModel, ids: Seq<u32>) -> Seq<char>
    decreases ids.len(),
{
    if ids.len() == 0 {
        Seq::empty()
    } else {
        spec_decoded_text(m, ids.drop_last()) + if ids.last() < m.vocab.len() {
            m.vocab[ids.last() as int]
        } else {
            Seq::empty()
        }
    }
}

/// The text `String::from_utf8_lossy` makes of a byte sequence.
pub uninterp spec fn utf8_lossy(bytes: Seq<u8>) -> Seq<char>;

/// Calls `String::from_utf8_lossy` and takes the result as an owned string.
/// Its documentation says that valid UTF-8 is returned as it is (other input
/// gets its invalid sequences replaced, which is left to the name).
#[verifier::external_body]
fn from_utf8_lossy(bytes: &[u8]) -> (r: String)
    ensures
        r@ == utf8_lossy(bytes@),
        valid_utf8(bytes@) ==> r@ == decode_utf8(bytes@),
{
    String::from_utf8_lossy(bytes).into_owned()
}

/// What a token sequence decodes to: for a byte-level vocabulary the text
/// `from_utf8_lossy` makes of its bytes, otherwise the joined token texts.
pub open spec fn spec_decode(m: TokenizerModel, ids: Seq<u32>) -> Seq<char> {
    if m.byte_level {
        utf8_lossy(spec_decoded_bytes(m, ids))
    } else {
        spec_decoded_text(m, ids)
    }
}

impl Tokenizer {
    /// Appends the bytes token `tid` stands for in a byte-level vocabulary.
    fn push_token_bytes(&self, out: &mut Vec<u8>, tid: u32)
        requires
            self.wf(),
            tid < self.model().vocab.len(),
        ensures
            final(out)@ == old(out)@ + text_decoded_bytes(self.model().vocab[tid as int]),
    {
        broadcast use vstd::string::axiom_spec_iter;

        let ghost t = self.model().vocab[tid as int];
        let ghost start = out@;
        let text = self.vocab[tid as usize].as_str();
        assert(text@ == t);
        for c in it: text.chars()
            invariant
                it.seq() == t,
                out@ == start + text_decoded_bytes(t.take(it.index() as int)),
        {
            proof {
                vstd::utf8::char_is_scalar(c);
            }
            match gpt2_byte_for(c as u32) {
                Some(b) => {
                    out.push(b);
                },
                None => {
                    push_utf8(out, c as u32);
                },
            }
            assert(t.take(it.index() + 1).drop_last() =~= t.take(it.index() as int));
            assert(out@ =~= start + text_decoded_bytes(t.take(it.index() + 1)));
        }
        assert(t.take(t.len() as int) =~= t);
    }

    /// The bytes a token sequence stands for in a byte-level vocabulary
    /// (see [`spec_decoded_bytes`]).
    pub fn decoded_bytes(&self, token_ids: &[u32]) -> (r: Vec<u8>)
        requires
            self.wf(),
        ensures
            r@ == spec_decoded_bytes(self.model(), token_ids@),
    {
        let ghost m = self.model();
        let vocab_len = self.vocab.len();
        let mut bytes: Vec<u8> = Vec::new();
        let mut k: usize = 0;
        while k < token_ids.len()
            invariant
                self.wf(),
                m == self.model(),
                vocab_len == m.vocab.len(),
                k <= token_ids@.len(),
                bytes@ == spec_decoded_bytes(m, token_ids@.subrange(0, k as int)),
            decreases token_ids@.len() - k,
        {
            let tid = token_ids[k];
            let ghost before = bytes@;
            let fast = if (tid as usize) < self.token_to_byte.len() {
                self.token_to_byte[tid as usize]
            } else {
                None
            };
            match fast {
                Some(b) => {
                    proof {
                        let cp = gpt2_codepoint(b);
                        lemma_gpt2_alphabet_bijective(b, cp);
                        let c = cp as char;
                        assert(c as u32 == cp);
                        let t = m.vocab[tid as int];
                        assert(t == seq![c]);
                        assert(t.drop_last() =~= Seq::<char>::empty());
                        assert(text_decoded_bytes(Seq::<char>::empty()) == Seq::<u8>::empty());
                        assert(t.last() == c);
                        assert(char_decoded_bytes(c) == seq![b]);
                        assert(text_decoded_bytes(t) =~= seq![b]);
                    }
                    bytes.push(b);
                },
                None => {
                    if (tid as usize) < vocab_len {
                        self.push_token_bytes(&mut bytes, tid);
                    }
                },
            }
            assert(token_ids@.subrange(0, k + 1).drop_last() =~= token_ids@.subrange(0, k as int));
            k = k + 1;
            assert(bytes@ =~= spec_decoded_bytes(m, token_ids@.subrange(0, k as int)));
        }
        assert(token_ids@.subrange(0, k as int) =~= token_ids@);
        bytes
    }

    /// The text of a token sequence: for a byte-level vocabulary each token
    /// text's characters are turned back into the bytes of the GPT-2
    /// alphabet and the bytes read as UTF-8 (invalid sequences replaced);
    /// otherwise the token texts are joined. Ids outside the vocabulary are
    /// skipped.
    pub fn decode(&self, token_ids: &[u32]) -> (r: String)
        requires
            self.wf(),
        ensures
            r@ == spec_decode(self.model(), token_ids@),
            self.model().byte_level && valid_utf8(spec_decoded_bytes(self.model(), token_ids@)) ==> r@
                == decode_utf8(spec_decoded_bytes(self.model(), token_ids@)),
    {
        let ghost m = self.model();
        if self.byte_level {
            let bytes = self.decoded_bytes(token_ids);
            from_utf8_lossy(bytes.as_slice())
        } else {
            let vocab_len = self.vocab.len();
            let mut text = String::new();
            let mut k: usize = 0;
            while k < token_ids.len()
                invariant
                    self.wf(),
                    m == self.model(),
                    vocab_len == m.vocab.len(),
                    k <= token_ids@.len(),
                    text@ == spec_decoded_text(m, token_ids@.subrange(0, k as int)),
                decreases token_ids@.len() - k,
            {
                let tid = token_ids[k];
                if (tid as usize) < vocab_len {
                    text.append(self.vocab[tid as usize].as_str());
                }
                assert(token_ids@.subrange(0, k + 1).drop_last() =~= token_ids@.subrange(0, k as int));
                k = k + 1;
                assert(text@ =~= spec_decoded_text(m, token_ids@.subrange(0, k as int)));
            }
            assert(token_ids@.subrange(0, k as int) =~= token_ids@);
            text
        }
    }
}

// ---------------------------------------------------------------------------
// The lm.rs tokenizer file
// ---------------------------------------------------------------------------

/// Why a tokenizer file was refused.
#[derive(Debug, Clone, Copy, PartialEq, Eq, Structural)]
pub enum TokenizerFileError {
    /// The file ends inside its header or inside a vocabulary entry.
    Truncated,
    /// A token text is not valid UTF-8.
    InvalidUtf8,
}

/// The vocabulary entry at `off`: the score as the bits of an `f32`, the
/// text's byte count as a `u32`, then the text's UTF-8 bytes. Gives the text,
/// the score's order key and the offset after the entry.
pub open spec fn spec_bin_entry(d: Seq<u8>, off: int) -> Result<(Seq<char>, u64, int), TokenizerFileError> {
    if off + 8 > d.len() {
        Err(TokenizerFileError::Truncated)
    } else {
        let len = le_u32_at(d, off + 4);
        if off + 8 + len > d.len() {
            Err(TokenizerFileError::Truncated)
        } else {
            let b = d.subrange(off + 8, off + 8 + len);
            if valid_utf8(b) {
                Ok((decode_utf8(b), spec_f32_order_key(le_u32_at(d, off) as u32), off + 8 + len))
            } else {
                Err(TokenizerFileError::InvalidUtf8)
            }
        }
    }
}

/// Puts entries read so far in front of what the rest of the file gives.
pub open spec fn prepend_entries(
    acc: (Seq<Seq<char>>, Seq<u64>),
    rest: Result<(Seq<Seq<char>>, Seq<u64>), TokenizerFileError>,
) -> Result<(Seq<Seq<char>>, Seq<u64>), TokenizerFileError> {
    match rest {
        Ok((ts, ks)) => Ok((acc.0 + ts, acc.1 + ks)),
        Err(e) => Err(e),
    }
}

/// The `n` vocabulary entries from `off`, texts and score keys.
pub open spec fn spec_bin_entries(d: Seq<u8>, off: int, n: nat) -> Result<
    (Seq<Seq<char>>, Seq<u64>),
    TokenizerFileError,
>
    decreases n,
{
    if n == 0 {
        Ok((Seq::empty(), Seq::empty()))
    } else {
        match spec_bin_entry(d, off) {
            Err(e) => Err(e),
            Ok((t, k, next)) => prepend_entries((seq![t], seq![k]), spec_bin_entries(d, next, (n - 1) as nat)),
        }
    }
}

/// A tokenizer file: the vocabulary size (`u32` at 0), the begin and end
/// token ids (`u32` at 8 and 12), then that many entries from offset 16.
/// Gives the texts, score keys, begin id and end id.
pub open spec fn spec_tokenizer_file(d: Seq<u8>) -> Result<
    (Seq<Seq<char>>, Seq<u64>, u32, u32),
    TokenizerFileError,
> {
    if d.len() < 16 {
        Err(TokenizerFileError::Truncated)
    } else {
        match spec_bin_entries(d, 16, le_u32_at(d, 0) as nat) {
            Ok((ts, ks)) => Ok((ts, ks, le_u32_at(d, 8) as u32, le_u32_at(d, 12) as u32)),
            Err(e) => Err(e),
        }
    }
}

proof fn lemma_prepend_entries_assoc(
    a: (Seq<Seq<char>>, Seq<u64>),
    b: (Seq<Seq<char>>, Seq<u64>),
    r: Result<(Seq<Seq<char>>, Seq<u64>), TokenizerFileError>,
)
    ensures
        prepend_entries(a, prepend_entries(b, r)) == prepend_entries((a.0 + b.0, a.1 + b.1), r),
{
    if let Ok((ts, ks)) = r {
        assert(a.0 + (b.0 + ts) =~= (a.0 + b.0) + ts);
        assert(a.1 + (b.1 + ks) =~= (a.1 + b.1) + ks);
    }
}

proof fn lemma_bin_entries_len(d: Seq<u8>, off: int, n: nat)
    ensures
        spec_bin_entries(d, off, n) matches Ok((ts, ks)) ==> ts.len() == n && ks.len() == n,
    decreases n,
{
    if n > 0 {
        if let Ok((_, _, next)) = spec_bin_entry(d, off) {
            lemma_bin_entries_len(d, next, (n - 1) as nat);
        }
    }
}

impl Tokenizer {
    /// A character-level tokenizer from the bytes of an lm.rs tokenizer
    /// file (see [`spec_tokenizer_file`]): scores as stored, byte-fallback
    /// tokens `byte + 3`, the "default" pre-tokenizer and a begin marker.
    pub fn new(data: &[u8]) -> (r: Result<Tokenizer, TokenizerFileError>)
        ensures
            match spec_tokenizer_file(data@) {
                Ok((ts, ks, bos, eos)) => r matches Ok(t) && t.wf() && t.model() == (TokenizerModel {
                    vocab: ts,
                    scores: ks,
                    byte_level: false,
                    pre: "default"@,
                    add_space_prefix: false,
                    bos,
                    eos,
                    add_bos_token: true,
                    chat_template: None,
                }),
                Err(e) => r == Err::<Tokenizer, TokenizerFileError>(e),
            },
    {
        if data.len() < 16 {
            return Err(TokenizerFileError::Truncated);
        }
        let vocab_size = read_u32_le(data, 0);
        let bos = read_u32_le(data, 8);
        let eos = read_u32_le(data, 12);
        let ghost total = spec_bin_entries(data@, 16, vocab_size as nat);
        let mut vocab: Vec<String> = Vec::new();
        let mut vocab_scores: Vec<u64> = Vec::new();
        let mut offset: usize = 16;
        let mut i: u32 = 0;
        while i < vocab_size
            invariant
                i <= vocab_size,
                offset <= data@.len(),
                data@.len() >= 16,
                vocab_size == le_u32_at(data@, 0),
                total == spec_bin_entries(data@, 16, vocab_size as nat),
                vocab@.len() == i,
                vocab_scores@.len() == i,
                total == prepend_entries(
                    (views(vocab@), vocab_scores@),
                    spec_bin_entries(data@, offset as int, (vocab_size - i) as nat),
                ),
            decreases vocab_size - i,
        {
            let ghost before = (views(vocab@), vocab_scores@);
            if data.len() - offset < 8 {
                assert(spec_bin_entry(data@, offset as int) is Err);
                return Err(TokenizerFileError::Truncated);
            }
            let bits = read_u32_le(data, offset);
            let len = read_u32_le(data, offset + 4);
            let start = offset + 8;
            if (len as usize) > data.len() - start {
                return Err(TokenizerFileError::Truncated);
            }
            let end = start + len as usize;
            let text = match utf8_string(&data[start..end]) {
                Some(t) => t,
                None => {
                    return Err(TokenizerFileError::InvalidUtf8);
                },
            };
            let key = f32_order_key(bits);
            proof {
                lemma_prepend_entries_assoc(
                    before,
                    (seq![text@], seq![key]),
                    spec_bin_entries(data@, end as int, (vocab_size - i - 1) as nat),
                );
            }
            vocab.push(text);
            vocab_scores.push(key);
            assert(views(vocab@) =~= before.0 + seq![vocab@[i as int]@]);
            assert(vocab_scores@ =~= before.1 + seq![key]);
            offset = end;
            i = i + 1;
        }
        assert(views(vocab@).len() == vocab@.len());
        assert(total == Ok::<(Seq<Seq<char>>, Seq<u64>), TokenizerFileError>((views(vocab@), vocab_scores@))) by {
            assert(views(vocab@) + Seq::<Seq<char>>::empty() =~= views(vocab@));
            assert(vocab_scores@ + Seq::<u64>::empty() =~= vocab_scores@);
        }
        let sorted_vocab = build_index(&vocab);
        let mut byte_to_token: Vec<u32> = Vec::new();
        let mut b: u32 = 0;
        while b < 256
            invariant
                b <= 256,
                byte_to_token@.len() == b,
                forall|c: int| 0 <= c < b ==> #[trigger] byte_to_token@[c] == c + 3,
            decreases 256 - b,
        {
            byte_to_token.push(b + 3);
            b = b + 1;
        }
        let t = Tokenizer {
            vocab,
            bos,
            eos,
            vocab_scores,
            sorted_vocab,
            byte_level: false,
            byte_to_token,
            token_to_byte: Vec::new(),
            chat_template: None,
            pre: String::from_str("default"),
            add_bos_token: true,
            add_space_prefix: false,
        };
        assert(forall|c: u8| #[trigger] t.byte_to_token@[c as int] == spec_byte_token(t.model(), c));
        Ok(t)
    }
}

// ---------------------------------------------------------------------------
// HuggingFace tokenizer.json
// ---------------------------------------------------------------------------

/// The highest id among the vocabulary entries (0 when there are none).
pub open spec fn max_vocab_id(vp: Seq<(Seq<char>, u64)>) -> u64
    decreases vp.len(),
{
    if vp.len() == 0 {
        0
    } else {
        let prev = max_vocab_id(vp.drop_last());
        if vp.last().1 > prev {
            vp.last().1
        } else {
            prev
        }
    }
}

/// The highest id among the added tokens (0 when there are none).
pub open spec fn max_added_id(ap: Seq<(u64, Seq<char>)>) -> u64
    decreases ap.len(),
{
    if ap.len() == 0 {
        0
    } else {
        let prev = max_added_id(ap.drop_last());
        if ap.last().0 > prev {
            ap.last().0
        } else {
            prev
        }
    }
}

/// The texts after placing each vocabulary entry's text at its id, in order.
pub open spec fn place_vocab(texts: Seq<Seq<char>>, vp: Seq<(Seq<char>, u64)>) -> Seq<Seq<char>>
    decreases vp.len(),
{
    if vp.len() == 0 {
        texts
    } else {
        let prev = place_vocab(texts, vp.drop_last());
        if vp.last().1 < prev.len() {
            prev.update(vp.last().1 as int, vp.last().0)
        } else {
            prev
        }
    }
}

/// The texts after placing each added token's text at its id, in order.
pub open spec fn place_added(texts: Seq<Seq<char>>, ap: Seq<(u64, Seq<char>)>) -> Seq<Seq<char>>
    decreases ap.len(),
{
    if ap.len() == 0 {
        texts
    } else {
        let prev = place_added(texts, ap.drop_last());
        if ap.last().0 < prev.len() {
            prev.update(ap.last().0 as int, ap.last().1)
        } else {
            prev
        }
    }
}

/// The vocabulary of a `tokenizer.json` document: one entry per id up to
/// the highest id used, empty unless a vocabulary entry and then an added
/// token (the last of each for an id) gives it a text.
pub open spec fn json_vocab(vp: Seq<(Seq<char>, u64)>, ap: Seq<(u64, Seq<char>)>) -> Seq<Seq<char>> {
    let n = if max_vocab_id(vp) > max_added_id(ap) {
        max_vocab_id(vp)
    } else {
        max_added_id(ap)
    };
    place_added(place_vocab(Seq::new((n + 1) as nat, |i: int| Seq::<char>::empty()), vp), ap)
}

/// The begin token: the last added token with text `<|begin_of_text|>`,
/// else 128000.
pub open spec fn json_bos(ap: Seq<(u64, Seq<char>)>) -> u32
    decreases ap.len(),
{
    if ap.len() == 0 {
        128000
    } else if ap.last().1 == "<|begin_of_text|>"@ {
        ap.last().0 as u32
    } else {
        json_bos(ap.drop_last())
    }
}

/// The end token: the last added token with text `<|end_of_text|>` or
/// `<|eot_id|>`, else 128009.
pub open spec fn json_eos(ap: Seq<(u64, Seq<char>)>) -> u32
    decreases ap.len(),
{
    if ap.len() == 0 {
        128009
    } else if ap.last().1 == "<|end_of_text|>"@ || ap.last().1 == "<|eot_id|>"@ {
        ap.last().0 as u32
    } else {
        json_eos(ap.drop_last())
    }
}

/// An added token that ends a text or a turn.
pub open spec fn is_end_marker(text: Seq<char>) -> bool {
    text == "<|end_of_text|>"@ || text == "<|eot_id|>"@
}

proof fn lemma_json_eos_last(ap: Seq<(u64, Seq<char>)>)
    ensures
        (forall|k: int| 0 <= k < ap.len() ==> !is_end_marker(#[trigger] ap[k].1)) ==> json_eos(ap) == 128009,
        forall|k: int|
            0 <= k < ap.len() && is_end_marker(#[trigger] ap[k].1) && (forall|j: int|
                k < j < ap.len() ==> !is_end_marker(ap[j].1)) ==> json_eos(ap) == ap[k].0 as u32,
    decreases ap.len(),
{
    if ap.len() > 0 {
        let rest = ap.drop_last();
        let n = ap.len() - 1;
        lemma_json_eos_last(rest);
        assert forall|k: int| 0 <= k < rest.len() implies rest[k] == #[trigger] ap[k] by {}
        if is_end_marker(ap[n].1) {
            assert(json_eos(ap) == ap[n].0 as u32);
        } else {
            assert(json_eos(ap) == json_eos(rest));
            assert forall|k: int|
                0 <= k < ap.len() && is_end_marker(#[trigger] ap[k].1) && (forall|j: int|
                    k < j < ap.len() ==> !is_end_marker(ap[j].1)) implies json_eos(ap) == ap[k].0 as u32 by {
                assert(k < n);
                assert(rest[k] == ap[k]);
                assert(forall|j: int| k < j < rest.len() ==> rest[j] == ap[j]);
            }
        }
    }
}

proof fn lemma_json_bos_last(ap: Seq<(u64, Seq<char>)>)
    ensures
        (forall|k: int| 0 <= k < ap.len() ==> (#[trigger] ap[k].1) != "<|begin_of_text|>"@) ==> json_bos(ap)
            == 128000,
        forall|k: int|
            0 <= k < ap.len() && (#[trigger] ap[k].1) == "<|begin_of_text|>"@ && (forall|j: int|
                k < j < ap.len() ==> ap[j].1 != "<|begin_of_text|>"@) ==> json_bos(ap) == ap[k].0 as u32,
    decreases ap.len(),
{
    if ap.len() > 0 {
        let rest = ap.drop_last();
        let n = ap.len() - 1;
        lemma_json_bos_last(rest);
        assert forall|k: int| 0 <= k < rest.len() implies rest[k] == #[trigger] ap[k] by {}
        if ap[n].1 == "<|begin_of_text|>"@ {
            assert(json_bos(ap) == ap[n].0 as u32);
        } else {
            assert(json_bos(ap) == json_bos(rest));
            assert forall|k: int|
                0 <= k < ap.len() && (#[trigger] ap[k].1) == "<|begin_of_text|>"@ && (forall|j: int|
                    k < j < ap.len() ==> ap[j].1 != "<|begin_of_text|>"@) implies json_bos(ap) == ap[k].0 as u32 by {
                assert(k < n);
                assert(rest[k] == ap[k]);
                assert(forall|j: int| k < j < rest.len() ==> rest[j] == ap[j]);
            }
        }
    }
}

/// The end marker of a `tokenizer.json` tokenizer is the id of the last
/// added token that is `<|end_of_text|>` or `<|eot_id|>` (later entries win,
/// so a Llama 3 instruct tokenizer stops at `<|eot_id|>`), 128009 when there
/// is none; the begin marker is the id of the last `<|begin_of_text|>`,
/// 128000 when there is none.
pub proof fn lemma_json_markers_are_last(
    vp: Seq<(Seq<char>, u64)>,
    ap: Seq<(u64, Seq<char>)>,
    merges: Seq<Seq<char>>,
)
    ensures
        (forall|k: int| 0 <= k < ap.len() ==> !is_end_marker(#[trigger] ap[k].1)) ==> json_tokenizer_model(
            vp,
            ap,
            merges,
        ).eos == 128009,
        forall|k: int|
            0 <= k < ap.len() && is_end_marker(#[trigger] ap[k].1) && (forall|j: int|
                k < j < ap.len() ==> !is_end_marker(ap[j].1)) ==> json_tokenizer_model(vp, ap, merges).eos
                == ap[k].0 as u32,
        (forall|k: int| 0 <= k < ap.len() ==> (#[trigger] ap[k].1) != "<|begin_of_text|>"@) ==> json_tokenizer_model(
            vp,
            ap,
            merges,
        ).bos == 128000,
        forall|k: int|
            0 <= k < ap.len() && (#[trigger] ap[k].1) == "<|begin_of_text|>"@ && (forall|j: int|
                k < j < ap.len() ==> ap[j].1 != "<|begin_of_text|>"@) ==> json_tokenizer_model(vp, ap, merges).bos
                == ap[k].0 as u32,
{
    lemma_json_eos_last(ap);
    lemma_json_bos_last(ap);
}

/// The byte-level tokenizer a `tokenizer.json` document describes.
pub open spec fn json_tokenizer_model(
    vp: Seq<(Seq<char>, u64)>,
    ap: Seq<(u64, Seq<char>)>,
    merges: Seq<Seq<char>>,
) -> TokenizerModel {
    TokenizerModel {
        vocab: json_vocab(vp, ap),
        scores: merge_scores(json_vocab(vp, ap), merges, merges.len()),
        byte_level: true,
        pre: "default"@,
        add_space_prefix: false,
        bos: json_bos(ap),
        eos: json_eos(ap),
        add_bos_token: true,
        chat_template: None,
    }
}

/// The parts fit 32-bit token ids: every id is below `u32::MAX` and there
/// are at most `u32::MAX` merge rules.
pub open spec fn json_parts_fit(vp: Seq<(Seq<char>, u64)>, ap: Seq<(u64, Seq<char>)>, merges: Seq<Seq<char>>) -> bool {
    max_vocab_id(vp) < u32::MAX && max_added_id(ap) < u32::MAX && merges.len() <= u32::MAX
}

impl Tokenizer {
    /// A byte-level tokenizer from the parts of a `tokenizer.json` document
    /// (see [`json_tokenizer_model`]); `TooLarge` when they do not fit 32-bit
    /// token ids.
    pub fn from_json_parts(parts: TokenizerJsonParts) -> (r: Result<Tokenizer, TokenizerJsonError>)
        ensures
            ({
                let vp = text_id_views(parts.vocab@);
                let ap = id_text_views(parts.added@);
                let mt = views(parts.merges@);
                if json_parts_fit(vp, ap, mt) {
                    r matches Ok(t) && t.wf() && t.model() == json_tokenizer_model(vp, ap, mt)
                } else {
                    r == Err::<Tokenizer, TokenizerJsonError>(TokenizerJsonError::TooLarge)
                }
            }),
    {
        let ghost vp = text_id_views(parts.vocab@);
        let ghost ap = id_text_views(parts.added@);
        let mut max_v: u64 = 0;
        let mut i: usize = 0;
        while i < parts.vocab.len()
            invariant
                vp == text_id_views(parts.vocab@),
                i <= parts.vocab@.len(),
                max_v == max_vocab_id(vp.subrange(0, i as int)),
            decreases parts.vocab@.len() - i,
        {
            assert(vp.subrange(0, i + 1).drop_last() =~= vp.subrange(0, i as int));
            if parts.vocab[i].1 > max_v {
                max_v = parts.vocab[i].1;
            }
            i = i + 1;
        }
        assert(vp.subrange(0, i as int) =~= vp);
        let mut max_a: u64 = 0;
        let mut j: usize = 0;
        while j < parts.added.len()
            invariant
                ap == id_text_views(parts.added@),
                j <= parts.added@.len(),
                max_a == max_added_id(ap.subrange(0, j as int)),
            decreases parts.added@.len() - j,
        {
            assert(ap.subrange(0, j + 1).drop_last() =~= ap.subrange(0, j as int));
            if parts.added[j].0 > max_a {
                max_a = parts.added[j].0;
            }
            j = j + 1;
        }
        assert(ap.subrange(0, j as int) =~= ap);
        if max_v >= 0xFFFF_FFFF || max_a >= 0xFFFF_FFFF || parts.merges.len() > 0xFFFF_FFFF {
            return Err(TokenizerJsonError::TooLarge);
        }
        let max_id = if max_v > max_a {
            max_v
        } else {
            max_a
        };
        let total = (max_id + 1) as usize;
        let mut vocab: Vec<String> = Vec::new();
        let mut k: usize = 0;
        while k < total
            invariant
                k <= total,
                vocab@.len() == k,
                forall|i: int| 0 <= i < k ==> (#[trigger] vocab@[i])@ == Seq::<char>::empty(),
            decreases total - k,
        {
            vocab.push(String::new());
            k = k + 1;
        }
        let ghost empty_texts = views(vocab@);
        assert(empty_texts =~= Seq::new(total as nat, |i: int| Seq::<char>::empty()));
        let mut i: usize = 0;
        while i < parts.vocab.len()
            invariant
                vp == text_id_views(parts.vocab@),
                i <= parts.vocab@.len(),
                vocab@.len() == total,
                views(vocab@) == place_vocab(empty_texts, vp.subrange(0, i as int)),
            decreases parts.vocab@.len() - i,
        {
            assert(vp.subrange(0, i + 1).drop_last() =~= vp.subrange(0, i as int));
            assert(vp.subrange(0, i + 1).last() == (parts.vocab@[i as int].0@, parts.vocab@[i as int].1));
            let id = parts.vocab[i].1;
            if id < vocab.len() as u64 {
                vocab.set(id as usize, parts.vocab[i].0.clone());
            }
            assert(views(vocab@) =~= place_vocab(empty_texts, vp.subrange(0, i + 1)));
            i = i + 1;
        }
        assert(vp.subrange(0, i as int) =~= vp);
        let ghost vocab_texts = views(vocab@);
        let mut j: usize = 0;
        while j < parts.added.len()
            invariant
                ap == id_text_views(parts.added@),
                j <= parts.added@.len(),
                vocab@.len() == total,
                views(vocab@) == place_added(vocab_texts, ap.subrange(0, j as int)),
            decreases parts.added@.len() - j,
        {
            assert(ap.subrange(0, j + 1).drop_last() =~= ap.subrange(0, j as int));
            assert(ap.subrange(0, j + 1).last() == (parts.added@[j as int].0, parts.added@[j as int].1@));
            let id = parts.added[j].0;
            if id < vocab.len() as u64 {
                vocab.set(id as usize, parts.added[j].1.clone());
            }
            assert(views(vocab@) =~= place_added(vocab_texts, ap.subrange(0, j + 1)));
            j = j + 1;
        }
        assert(ap.subrange(0, j as int) =~= ap);
        let mut bos: u32 = 128000;
        let mut eos: u32 = 128009;
        let mut j: usize = 0;
        while j < parts.added.len()
            invariant
                ap == id_text_views(parts.added@),
                j <= parts.added@.len(),
                bos == json_bos(ap.subrange(0, j as int)),
                eos == json_eos(ap.subrange(0, j as int)),
            decreases parts.added@.len() - j,
        {
            assert(ap.subrange(0, j + 1).drop_last() =~= ap.subrange(0, j as int));
            let content = &parts.added[j].1;
            #[verifier::truncate]
            let id = parts.added[j].0 as u32;
            if string_is(content, "<|begin_of_text|>") {
                bos = id;
            }
            if string_is(content, "<|end_of_text|>") || string_is(content, "<|eot_id|>") {
                eos = id;
            }
            j = j + 1;
        }
        assert(ap.subrange(0, j as int) =~= ap);
        assert(views(vocab@) == json_vocab(vp, ap));
        let sorted_vocab = build_index(&vocab);
        let vocab_scores = scores_from_merges(&vocab, &sorted_vocab, &parts.merges);
        let (byte_to_token, token_to_byte) = Self::byte_tables(&vocab, &sorted_vocab);
        proof {
            lemma_merge_scores_len(views(vocab@), views(parts.merges@), parts.merges@.len() as nat);
        }
        Ok(Tokenizer {
            vocab,
            bos,
            eos,
            vocab_scores,
            sorted_vocab,
            byte_level: true,
            byte_to_token,
            token_to_byte,
            chat_template: None,
            pre: String::from_str("default"),
            add_bos_token: true,
            add_space_prefix: false,
        })
    }

    /// A byte-level tokenizer from the text of a HuggingFace `tokenizer.json`
    /// file: `NotJson` when `serde_json` cannot parse it, else as
    /// [`spec_tokenizer_json`] and [`Tokenizer::from_json_parts`] say.
    pub fn from_json(text: &str) -> (r: Result<Tokenizer, TokenizerJsonError>)
        ensures
            match json_document(text@) {
                None => r == Err::<Tokenizer, TokenizerJsonError>(TokenizerJsonError::NotJson),
                Some(root) => match spec_tokenizer_json(root) {
                    Err(x) => r == Err::<Tokenizer, TokenizerJsonError>(x),
                    Ok((vp, ap, mt)) => if json_parts_fit(vp, ap, mt) {
                        r matches Ok(t) && t.wf() && t.model() == json_tokenizer_model(vp, ap, mt)
                    } else {
                        r == Err::<Tokenizer, TokenizerJsonError>(TokenizerJsonError::TooLarge)
                    },
                },
            },
    {
        let root = match parse_json(text) {
            Some(v) => v,
            None => {
                return Err(TokenizerJsonError::NotJson);
            },
        };
        match tokenizer_json_parts(&root) {
            Ok(parts) => {
                proof {
                    assert(views(parts.merges@) =~= parts.merges@.map_values(|s: String| s@));
                }
                Self::from_json_parts(parts)
            },
            Err(x) => Err(x),
        }
    }
}

// ---------------------------------------------------------------------------
// Chat templates
// ---------------------------------------------------------------------------

/// The id of `<|begin_of_text|>` in LLaMA 3 vocabularies.
pub const BEGIN_OF_TEXT: u32 = 128000;
/// The id of `<|start_header_id|>`.
pub const START_HEADER: u32 = 128006;
/// The id of `<|end_header_id|>`.
pub const END_HEADER: u32 = 128007;
/// The id of `<|eot_id|>`.
pub const EOT: u32 = 128009;
/// The id of the blank line after a header.
pub const HEADER_SEP: u32 = 271;

/// The vocabulary is large enough to hold the LLaMA 3 header tokens.
pub open spec fn has_llama_tokens(m: TokenizerModel) -> bool {
    m.vocab.len() > 128009
}

/// The tokens of a text without markers, nothing for an empty text.
pub open spec fn encode_or_empty(m: TokenizerModel, s: Seq<char>) -> Seq<u32> {
    if s.len() == 0 {
        Seq::empty()
    } else {
        spec_encode(m, s, false, false)
    }
}

/// A text wrapped in LLaMA 3 header markers (see
/// [`Tokenizer::encode_wrap_n_header`]).
pub open spec fn spec_wrap_n_header(m: TokenizerModel, text: Seq<char>, header: Seq<char>, wrap: bool) -> Seq<u32> {
    if !has_llama_tokens(m) {
        (if wrap && m.add_bos_token {
            seq![m.bos]
        } else {
            Seq::empty()
        }) + encode_or_empty(m, text)
    } else {
        (if wrap {
            seq![BEGIN_OF_TEXT]
        } else {
            Seq::empty()
        }) + (if header.len() > 0 {
            seq![START_HEADER] + spec_encode(m, header, false, false) + seq![END_HEADER, HEADER_SEP]
        } else {
            Seq::empty()
        }) + encode_or_empty(m, text) + (if wrap {
            seq![HEADER_SEP, EOT]
        } else {
            Seq::empty()
        })
    }
}

/// The first position at or after `i` holding `<`, else the text's length.
pub open spec fn next_open(t: Seq<char>, i: int) -> int
    decreases t.len() - i,
{
    if i < 0 || i >= t.len() {
        t.len() as int
    } else if t[i] == '<' {
        i
    } else {
        next_open(t, i + 1)
    }
}

/// The longest token (the highest id among equal texts) whose text is
/// `t[p..p + k]` for some `k` in `1..=len`, as (id, k).
pub open spec fn longest_token_at(m: TokenizerModel, t: Seq<char>, p: int, len: int) -> Option<(int, int)>
    decreases len,
{
    if len <= 0 {
        None
    } else {
        match spec_find_last(m.vocab, encode_utf8(t.subrange(p, p + len))) {
            Some(id) => Some((id, len)),
            None => longest_token_at(m, t, p, len - 1),
        }
    }
}

/// The tokens of a rendered template from position `p`: at a `<`, the
/// longest token whose text starts there; otherwise the text up to the next
/// `<`, encoded.
pub open spec fn template_tokens(m: TokenizerModel, t: Seq<char>, p: int) -> Seq<u32>
    decreases t.len() - p,
{
    if p < 0 || p >= t.len() {
        Seq::empty()
    } else {
        let hit = if t[p] == '<' {
            longest_token_at(m, t, p, t.len() - p)
        } else {
            None
        };
        match hit {
            Some((id, k)) => if k >= 1 && p + k <= t.len() {
                seq![id as u32] + template_tokens(m, t, p + k)
            } else {
                Seq::empty()
            },
            None => {
                let q = next_open(t, p + 1);
                if p < q <= t.len() {
                    spec_encode(m, t.subrange(p, q), false, false) + template_tokens(m, t, q)
                } else {
                    Seq::empty()
                }
            },
        }
    }
}

/// The views of chat messages (role, content).
pub open spec fn message_views(msgs: Seq<(&str, &str)>) -> Seq<(Seq<char>, Seq<char>)> {
    msgs.map_values(|p: (&str, &str)| (p.0@, p.1@))
}

/// The text minijinja renders from a chat template, given the messages and
/// the `add_generation_prompt` flag; `None` when it reports an error.
pub uninterp spec fn chat_render(
    template: Seq<char>,
    messages: Seq<(Seq<char>, Seq<char>)>,
    add_generation_prompt: bool,
) -> Option<Seq<char>>;

/// Whether minijinja accepts a text as a template.
pub uninterp spec fn chat_template_compiles(template: Seq<char>) -> bool;

/// Renders `template` with `minijinja::Environment::render_str` in a new
/// default environment; the context holds `messages`, a list of maps with
/// the keys `role` and `content`, and the flag `add_generation_prompt`.
/// `None` when minijinja reports an error. The text is named
/// [`chat_render`] of these arguments; nothing more is claimed of it.
#[verifier::external_body]
fn render_chat(template: &str, messages: &[(&str, &str)], add_generation_prompt: bool) -> (r: Option<String>)
    ensures
        match r {
            Some(s) => chat_render(template@, message_views(messages@), add_generation_prompt) == Some(s@),
            None => chat_render(template@, message_views(messages@), add_generation_prompt) is None,
        },
{
    let msgs = minijinja::Value::from_iter(
        messages.iter().map(|(role, content)| minijinja::Value::from_iter([("role", *role), ("content", *content)])),
    );
    let flag = minijinja::Value::from(add_generation_prompt);
    let ctx = minijinja::Value::from_iter([("messages", msgs), ("add_generation_prompt", flag)]);
    minijinja::Environment::new().render_str(template, ctx).ok()
}

/// Whether `minijinja::Environment::template_from_str` accepts the text (in
/// a new default environment); named [`chat_template_compiles`].
#[verifier::external_body]
fn template_compiles(template: &str) -> (r: bool)
    ensures
        r == chat_template_compiles(template@),
{
    minijinja::Environment::new().template_from_str(template).is_ok()
}

/// The tokens of a rendered chat template (see [`template_tokens`]).
pub open spec fn spec_render(m: TokenizerModel, template: Seq<char>, msgs: Seq<(Seq<char>, Seq<char>)>, add: bool) -> Option<
    Seq<u32>,
> {
    match chat_render(template, msgs, add) {
        None => None,
        Some(s) => Some(template_tokens(m, s, 0)),
    }
}

/// What [`Tokenizer::render_chat_template`] gives: nothing without a
/// template, else the tokens of the rendered text.
pub open spec fn spec_render_chat_template(m: TokenizerModel, msgs: Seq<(Seq<char>, Seq<char>)>, add: bool) -> Option<
    Seq<u32>,
> {
    match m.chat_template {
        None => Some(Seq::empty()),
        Some(t) => spec_render(m, t, msgs, add),
    }
}

/// What [`Tokenizer::apply_system_template`] gives.
pub open spec fn spec_system_template(m: TokenizerModel, system: Seq<char>) -> Option<Seq<u32>> {
    match m.chat_template {
        Some(t) => spec_render(m, t, seq![("system"@, system)], false),
        None => Some(
            if has_llama_tokens(m) {
                spec_wrap_n_header(m, system, "system"@, true)
            } else {
                encode_or_empty(m, system)
            },
        ),
    }
}

/// What [`Tokenizer::apply_turn_template`] gives.
pub open spec fn spec_turn_template(m: TokenizerModel, user: Seq<char>, add: bool) -> Option<Seq<u32>> {
    match m.chat_template {
        Some(t) => {
            let msgs = seq![("user"@, user)] + if add {
                seq![("assistant"@, Seq::<char>::empty())]
            } else {
                Seq::empty()
            };
            match spec_render(m, t, msgs, add) {
                None => None,
                Some(r) => Some(
                    if add && r.len() > 0 && r.last() == EOT {
                        r.drop_last()
                    } else {
                        r
                    },
                ),
            }
        },
        None => if has_llama_tokens(m) {
            let u = spec_encode(m, "user"@, false, false);
            let a = spec_encode(m, "assistant"@, false, false);
            if u.len() == 1 && a.len() == 1 {
                Some(
                    seq![START_HEADER, u[0], END_HEADER, HEADER_SEP] + spec_wrap_n_header(
                        m,
                        user,
                        Seq::empty(),
                        false,
                    ) + seq![EOT] + if add {
                        seq![START_HEADER, a[0], END_HEADER, HEADER_SEP]
                    } else {
                        Seq::empty()
                    },
                )
            } else {
                None
            }
        } else if user.len() == 0 {
            None
        } else {
            Some(
                (if m.add_bos_token {
                    seq![m.bos]
                } else {
                    Seq::empty()
                }) + spec_encode(m, user, false, false),
            )
        },
    }
}

pub proof fn lemma_next_open(t: Seq<char>, i: int)
    requires
        0 <= i,
    ensures
        i <= next_open(t, i) || i > t.len(),
        next_open(t, i) <= t.len(),
        forall|j: int| i <= j < next_open(t, i) ==> t[j] != '<',
        next_open(t, i) < t.len() ==> t[next_open(t, i)] == '<',
    decreases t.len() - i,
{
    if i < t.len() && t[i] != '<' {
        lemma_next_open(t, i + 1);
    }
}

proof fn lemma_encode_utf8_len(s: Seq<char>)
    ensures
        encode_utf8(s).len() >= s.len(),
    decreases s.len(),
{
    if s.len() > 0 {
        lemma_encode_utf8_len(s.drop_first());
    }
}

/// Lengths beyond the longest token text cannot match.
proof fn lemma_longest_token_bound(m: TokenizerModel, t: Seq<char>, p: int, len: int, cap: int)
    requires
        0 <= p,
        0 <= cap <= len,
        p + len <= t.len(),
        forall|i: int| 0 <= i < m.vocab.len() ==> #[trigger] text_bytes(m.vocab, i).len() <= cap,
    ensures
        longest_token_at(m, t, p, len) == longest_token_at(m, t, p, cap),
    decreases len,
{
    if len > cap {
        let q = encode_utf8(t.subrange(p, p + len));
        lemma_encode_utf8_len(t.subrange(p, p + len));
        lemma_last_before(m.vocab, q, m.vocab.len() as int);
        if spec_find_last(m.vocab, q) is Some {
            let k = spec_find_last(m.vocab, q)->0;
            assert(text_bytes(m.vocab, k).len() <= cap);
        }
        lemma_longest_token_bound(m, t, p, len - 1, cap);
    }
}

pub proof fn lemma_longest_token_at(m: TokenizerModel, t: Seq<char>, p: int, len: int)
    ensures
        longest_token_at(m, t, p, len) matches Some((id, k)) ==> 1 <= k <= len && spec_find_last(
            m.vocab,
            encode_utf8(t.subrange(p, p + k)),
        ) == Some(id),
    decreases len,
{
    if len > 0 {
        lemma_longest_token_at(m, t, p, len - 1);
    }
}

impl Tokenizer {
    /// Whether every text can be encoded (see [`can_encode`]).
    pub fn is_encodable(&self) -> (r: bool)
        requires
            self.wf(),
        ensures
            r == can_encode(self.model()),
    {
        if self.byte_level {
            self.vocab.len() > 0
        } else {
            self.vocab.len() > 258
        }
    }

    /// Whether all the tokens lie in the vocabulary.
    fn all_in_vocab(&self, toks: &Vec<u32>) -> (r: bool)
        requires
            self.wf(),
        ensures
            r == tokens_in_vocab(self.model(), toks@),
    {
        let n = self.vocab.len();
        let mut i: usize = 0;
        while i < toks.len()
            invariant
                self.wf(),
                n == self.model().vocab.len(),
                i <= toks@.len(),
                forall|k: int| 0 <= k < i ==> #[trigger] toks@[k] < n,
            decreases toks@.len() - i,
        {
            if toks[i] as usize >= n {
                return false;
            }
            i = i + 1;
        }
        true
    }

    /// Whether this text can be encoded, with the begin marker when `bos`
    /// (see [`can_encode_text`]).
    pub fn is_text_encodable(&self, text: &str, bos: bool) -> (r: bool)
        requires
            self.wf(),
        ensures
            r == can_encode_text(self.model(), text@, bos),
    {
        let ghost m = self.model();
        if string_is(&self.pre, "gpt2") || string_is(&self.pre, "smollm") {
            let leading_space = !text.is_empty() && text.get_char(0) == ' ';
            let spaced: String = if self.add_space_prefix && !leading_space {
                let mut s = String::from_str(" ");
                s.append(text);
                proof {
                    reveal_strlit(" ");
                }
                assert(s@ =~= seq![' '] + text@);
                s
            } else {
                String::from_str(text)
            };
            assert(spaced@ == spaced_text(m, text@));
            let toks = self.byte_encode(spaced.as_str().as_bytes());
            self.all_in_vocab(&toks)
        } else {
            let mut toks: Vec<u32> = Vec::new();
            if bos {
                toks.push(self.bos);
            }
            let mut rest = if self.byte_level {
                self.byte_encode(text.as_bytes())
            } else {
                self.char_encode(text)
            };
            toks.append(&mut rest);
            assert(toks@ =~= bos_prefix(m, bos) + spec_initial_tokens(m, text@));
            toks.len() < 2 || self.all_in_vocab(&toks)
        }
    }

    /// The number of tokens in the vocabulary.
    pub fn vocab_len(&self) -> (r: usize)
        requires
            self.wf(),
        ensures
            r == self.model().vocab.len(),
    {
        self.vocab.len()
    }

    /// The vocabulary holds the LLaMA 3 header tokens.
    pub fn has_llama_tokens(&self) -> (r: bool)
        requires
            self.wf(),
        ensures
            r == has_llama_tokens(self.model()),
    {
        self.vocab.len() > 128009
    }

    /// The tokens of `text`, or nothing when it is empty.
    fn encode_nonempty(&self, text: &str) -> (r: Vec<u32>)
        requires
            self.wf(),
            can_encode(self.model()),
        ensures
            r@ == encode_or_empty(self.model(), text@),
    {
        if text.is_empty() {
            Vec::new()
        } else {
            proof {
                lemma_can_encode_text(self.model(), text@);
            }
            self.encode(text, false, false)
        }
    }

    /// `text` wrapped for the chat format. Without the LLaMA 3 header tokens:
    /// the begin marker (when `begin_of_text_wrap` and the tokenizer adds
    /// one) and the text's tokens. With them: `<|begin_of_text|>` when
    /// `begin_of_text_wrap`, the header between header markers and a blank
    /// line when `header` is not empty, the text's tokens, and a blank line
    /// and `<|eot_id|>` when `begin_of_text_wrap`.
    pub fn encode_wrap_n_header(&self, text: &str, header: &str, begin_of_text_wrap: bool) -> (r: Vec<u32>)
        requires
            self.wf(),
            can_encode(self.model()),
        ensures
            r@ == spec_wrap_n_header(self.model(), text@, header@, begin_of_text_wrap),
    {
        let ghost m = self.model();
        if !self.has_llama_tokens() {
            let mut tokens: Vec<u32> = Vec::new();
            if begin_of_text_wrap && self.add_bos_token {
                tokens.push(self.bos);
            }
            let mut t = self.encode_nonempty(text);
            tokens.append(&mut t);
            return tokens;
        }
        let mut tokens: Vec<u32> = Vec::new();
        if begin_of_text_wrap {
            tokens.push(BEGIN_OF_TEXT);
        }
        let ghost part1 = tokens@;
        if !header.is_empty() {
            tokens.push(START_HEADER);
            proof {
                lemma_can_encode_text(self.model(), header@);
            }
            let mut h = self.encode(header, false, false);
            tokens.append(&mut h);
            tokens.push(END_HEADER);
            tokens.push(HEADER_SEP);
        }
        let ghost part2 = tokens@;
        let mut t = self.encode_nonempty(text);
        tokens.append(&mut t);
        let ghost part3 = tokens@;
        if begin_of_text_wrap {
            tokens.push(HEADER_SEP);
            tokens.push(EOT);
        }
        assert(tokens@ =~= spec_wrap_n_header(m, text@, header@, begin_of_text_wrap));
        tokens
    }

    /// The longest vocabulary token whose text starts at `chars[pos]`, as
    /// (id, length in characters); `cap` bounds the byte length of every
    /// token text.
    fn match_token_at(&self, chars: &Vec<char>, pos: usize, cap: usize) -> (r: Option<(u32, usize)>)
        requires
            self.wf(),
            pos < chars@.len(),
            forall|j: int| 0 <= j < self.model().vocab.len() ==> #[trigger] text_bytes(self.model().vocab, j).len() <= cap,
        ensures
            match r {
                Some((id, k)) => longest_token_at(self.model(), chars@, pos as int, chars@.len() - pos) == Some(
                    (id as int, k as int),
                ),
                None => longest_token_at(self.model(), chars@, pos as int, chars@.len() - pos) is None,
            },
    {
        let ghost m = self.model();
        let ghost t = chars@;
        let n = chars.len();
        let top = if n - pos < cap {
            n - pos
        } else {
            cap
        };
        proof {
            if cap < n - pos {
                lemma_longest_token_bound(m, t, pos as int, (n - pos) as int, top as int);
            }
        }
        let mut q: Vec<u8> = Vec::new();
        let mut ends: Vec<usize> = Vec::new();
        ends.push(0);
        assert(q@.subrange(0, 0) =~= encode_utf8(t.subrange(pos as int, pos as int)));
        let mut k: usize = 0;
        while k < top
            invariant
                pos + top <= n,
                chars@ == t,
                n == t.len(),
                k <= top,
                ends@.len() == k + 1,
                q@.len() == ends@[k as int],
                forall|j: int| 0 <= j <= k ==> #[trigger] ends@[j] <= q@.len(),
                forall|j: int|
                    0 <= j <= k ==> q@.subrange(0, #[trigger] ends@[j] as int) == encode_utf8(
                        t.subrange(pos as int, pos + j),
                    ),
            decreases top - k,
        {
            let ghost old_q = q@;
            proof {
                vstd::utf8::char_is_scalar(chars@[pos + k]);
            }
            push_utf8(&mut q, chars[pos + k] as u32);
            ends.push(q.len());
            proof {
                assert forall|j: int| 0 <= j <= k + 1 implies q@.subrange(0, #[trigger] ends@[j] as int)
                    == encode_utf8(t.subrange(pos as int, pos + j)) by {
                    if j <= k {
                        assert(q@.subrange(0, ends@[j] as int) =~= old_q.subrange(0, ends@[j] as int));
                    } else {
                        let c = t[pos + k];
                        assert(t.subrange(pos as int, pos + k + 1) =~= t.subrange(pos as int, pos + k) + seq![c]);
                        crate::bpe::lemma_encode_utf8_concat(t.subrange(pos as int, pos + k), seq![c]);
                        assert(encode_utf8(seq![c]) =~= encode_scalar(c as u32) + encode_utf8(seq![c].drop_first()));
                        assert(seq![c].drop_first() =~= Seq::<char>::empty());
                        assert(old_q.subrange(0, ends@[k as int] as int) =~= old_q);
                        assert(q@.subrange(0, ends@[j] as int) =~= q@);
                    }
                }
            }
            k = k + 1;
        }
        let mut hit: Option<(u32, usize)> = None;
        let mut len = top;
        while len > 0
            invariant
                pos + top <= n,
                n == t.len(),
                len <= top,
                ends@.len() == top + 1,
                forall|j: int| 0 <= j <= top ==> #[trigger] ends@[j] <= q@.len(),
                forall|j: int|
                    0 <= j <= top ==> q@.subrange(0, #[trigger] ends@[j] as int) == encode_utf8(
                        t.subrange(pos as int, pos + j),
                    ),
                self.wf(),
                m == self.model(),
                hit is None ==> longest_token_at(m, t, pos as int, top as int) == longest_token_at(
                    m,
                    t,
                    pos as int,
                    len as int,
                ),
                hit matches Some((id, k)) ==> len == 0 && longest_token_at(m, t, pos as int, top as int) == Some(
                    (id as int, k as int),
                ),
            decreases len,
        {
            let e = ends[len];
            let found = find_last(&self.vocab, &self.sorted_vocab, &q.as_slice()[0..e]);
            proof {
                lemma_last_before(m.vocab, encode_utf8(t.subrange(pos as int, pos + len)), m.vocab.len() as int);
            }
            match found {
                Some(id) => {
                    hit = Some((id, len));
                    len = 0;
                },
                None => {
                    len = len - 1;
                },
            }
        }
        hit
    }

    /// The tokens of a rendered chat template: at each `<`, the longest
    /// vocabulary token whose text starts there (the highest id among equal
    /// texts); every other stretch, up to the next `<`, encoded as text.
    pub fn encode_template_output(&self, text: &str) -> (r: Vec<u32>)
        requires
            self.wf(),
            can_encode(self.model()),
        ensures
            r@ == template_tokens(self.model(), text@, 0),
    {
        broadcast use vstd::string::axiom_spec_iter;

        let ghost m = self.model();
        let mut chars: Vec<char> = Vec::new();
        for c in it: text.chars()
            invariant
                it.seq() == text@,
                chars@ == text@.take(it.index() as int),
        {
            chars.push(c);
            assert(chars@ =~= text@.take(it.index() + 1));
        }
        assert(chars@ =~= text@);
        let mut cap: usize = 0;
        let mut i: usize = 0;
        while i < self.vocab.len()
            invariant
                self.wf(),
                m == self.model(),
                i <= m.vocab.len(),
                forall|j: int| 0 <= j < i ==> #[trigger] text_bytes(m.vocab, j).len() <= cap,
            decreases m.vocab.len() - i,
        {
            let l = self.vocab[i].as_str().as_bytes().len();
            assert(m.vocab[i as int] == self.vocab@[i as int]@);
            if l > cap {
                cap = l;
            }
            i = i + 1;
        }
        let n = chars.len();
        let ghost t = text@;
        let mut result: Vec<u32> = Vec::new();
        let mut pos: usize = 0;
        while pos < n
            invariant
                self.wf(),
                can_encode(m),
                m == self.model(),
                t == text@,
                chars@ == t,
                n == t.len(),
                pos <= n,
                forall|j: int| 0 <= j < m.vocab.len() ==> #[trigger] text_bytes(m.vocab, j).len() <= cap,
                result@ + template_tokens(m, t, pos as int) == template_tokens(m, t, 0),
            decreases n - pos,
        {
            let ghost before = result@;
            let ghost p0 = pos as int;
            let start = pos;
            let hit = if chars[pos] == '<' {
                self.match_token_at(&chars, pos, cap)
            } else {
                None
            };
            proof {
                lemma_longest_token_at(m, t, p0, t.len() - p0);
            }
            match hit {
                Some((id, k)) => {
                    result.push(id);
                    pos = pos + k;
                    assert(result@ + template_tokens(m, t, pos as int) =~= before + template_tokens(m, t, p0));
                },
                None => {
                    pos = pos + 1;
                    while pos < n && chars[pos] != '<'
                        invariant
                            p0 < pos <= n,
                            chars@ == t,
                            n == t.len(),
                            next_open(t, p0 + 1) == next_open(t, pos as int),
                        decreases n - pos,
                    {
                        pos = pos + 1;
                    }
                    proof {
                        lemma_next_open(t, p0 + 1);
                    }
                    let chunk = text.substring_char(start, pos);
                    proof {
                        lemma_can_encode_text(self.model(), chunk@);
                    }
                    let mut seg = self.encode(chunk, false, false);
                    result.append(&mut seg);
                    assert(result@ + template_tokens(m, t, pos as int) =~= before + template_tokens(m, t, p0));
                },
            }
        }
        assert(result@ =~= result@ + template_tokens(m, t, pos as int));
        result
    }

    /// Renders the chat template with the given (role, content) messages and
    /// `add_generation_prompt` flag and turns the text into tokens (see
    /// [`Tokenizer::encode_template_output`]); no tokens without a template,
    /// and `None` when the template cannot be rendered.
    pub fn render_chat_template(&self, messages: &[(&str, &str)], add_generation_prompt: bool) -> (r: Option<
        Vec<u32>,
    >)
        requires
            self.wf(),
            can_encode(self.model()),
        ensures
            match spec_render_chat_template(self.model(), message_views(messages@), add_generation_prompt) {
                Some(v) => r matches Some(x) && x@ == v,
                None => r is None,
            },
    {
        match &self.chat_template {
            None => Some(Vec::new()),
            Some(t) => match render_chat(t.as_str(), messages, add_generation_prompt) {
                None => None,
                Some(rendered) => {
                    if rendered.as_str().is_empty() {
                        assert(template_tokens(self.model(), rendered@, 0) =~= Seq::<u32>::empty());
                        Some(Vec::new())
                    } else {
                        Some(self.encode_template_output(rendered.as_str()))
                    }
                },
            },
        }
    }
}

/// Why a chat template was refused.
#[derive(Debug, Clone, Copy, PartialEq, Eq, Structural)]
pub enum ChatTemplateError {
    /// minijinja does not accept the text as a template.
    Rejected,
}

/// The model with another chat template.
pub open spec fn with_chat_template(m: TokenizerModel, t: Seq<char>) -> TokenizerModel {
    TokenizerModel {
        vocab: m.vocab,
        scores: m.scores,
        byte_level: m.byte_level,
        pre: m.pre,
        add_space_prefix: m.add_space_prefix,
        bos: m.bos,
        eos: m.eos,
        add_bos_token: m.add_bos_token,
        chat_template: Some(t),
    }
}

impl Tokenizer {
    /// Sets the chat template when minijinja accepts it; otherwise leaves the
    /// tokenizer as it was and reports `Rejected`.
    pub fn set_chat_template(&mut self, template: String) -> (r: Result<(), ChatTemplateError>)
        requires
            old(self).wf(),
        ensures
            final(self).wf(),
            chat_template_compiles(template@) ==> r is Ok && final(self).model() == with_chat_template(
                old(self).model(),
                template@,
            ),
            !chat_template_compiles(template@) ==> r == Err::<(), ChatTemplateError>(ChatTemplateError::Rejected)
                && final(self).model() == old(self).model(),
    {
        if template_compiles(template.as_str()) {
            self.chat_template = Some(template);
            Ok(())
        } else {
            Err(ChatTemplateError::Rejected)
        }
    }

    /// The tokens of a system prompt: through the chat template when there
    /// is one (`None` when it cannot be rendered); otherwise, with the LLaMA 3
    /// header tokens, wrapped under a "system" header, else just encoded.
    pub fn apply_system_template(&self, system: &str) -> (r: Option<Vec<u32>>)
        requires
            self.wf(),
            can_encode(self.model()),
        ensures
            match spec_system_template(self.model(), system@) {
                Some(v) => r matches Some(x) && x@ == v,
                None => r is None,
            },
    {
        match &self.chat_template {
            Some(_) => {
                let msgs: Vec<(&str, &str)> = vec![("system", system)];
                assert(message_views(msgs@) =~= seq![("system"@, system@)]);
                self.render_chat_template(msgs.as_slice(), false)
            },
            None => {
                if self.has_llama_tokens() {
                    Some(self.encode_wrap_n_header(system, "system", true))
                } else {
                    Some(self.encode_nonempty(system))
                }
            },
        }
    }

    /// The tokens of a user turn. With a chat template: the rendered user
    /// message (and an empty assistant message with the generation prompt
    /// when `add_empty_assistant`, dropping a final `<|eot_id|>` then);
    /// `None` when it cannot be rendered. Without one and with the LLaMA 3
    /// header tokens: the user header, the text, `<|eot_id|>`, and the
    /// assistant header when `add_empty_assistant`; `None` when "user" or
    /// "assistant" is not a single token. Otherwise the begin marker (when
    /// the tokenizer adds one) and the text's tokens; `None` for an empty
    /// text.
    pub fn apply_turn_template(&self, user: &str, add_empty_assistant: bool) -> (r: Option<Vec<u32>>)
        requires
            self.wf(),
            can_encode(self.model()),
        ensures
            match spec_turn_template(self.model(), user@, add_empty_assistant) {
                Some(v) => r matches Some(x) && x@ == v,
                None => r is None,
            },
    {
        let ghost m = self.model();
        match &self.chat_template {
            Some(_) => {
                let mut msgs: Vec<(&str, &str)> = Vec::new();
                msgs.push(("user", user));
                if add_empty_assistant {
                    msgs.push(("assistant", ""));
                }
                proof {
                    reveal_strlit("");
                }
                assert(""@ =~= Seq::<char>::empty());
                assert(message_views(msgs@) =~= seq![("user"@, user@)] + if add_empty_assistant {
                    seq![("assistant"@, Seq::<char>::empty())]
                } else {
                    Seq::empty()
                });
                match self.render_chat_template(msgs.as_slice(), add_empty_assistant) {
                    None => None,
                    Some(mut result) => {
                        if add_empty_assistant && result.len() > 0 && result[result.len() - 1] == EOT {
                            result.pop();
                        }
                        Some(result)
                    },
                }
            },
            None => {
                if self.has_llama_tokens() {
                    proof {
                        reveal_strlit("user");
                        reveal_strlit("assistant");
                    }
                    proof {
                        lemma_can_encode_text(self.model(), "user"@);
                        lemma_can_encode_text(self.model(), "assistant"@);
                    }
                    let user_id = self.encode("user", false, false);
                    let assistant_id = self.encode("assistant", false, false);
                    if user_id.len() != 1 || assistant_id.len() != 1 {
                        return None;
                    }
                    let mut tokens: Vec<u32> = Vec::new();
                    tokens.push(START_HEADER);
                    tokens.push(user_id[0]);
                    tokens.push(END_HEADER);
                    tokens.push(HEADER_SEP);
                    proof {
                        reveal_strlit("");
                    }
                    let mut body = self.encode_wrap_n_header(user, "", false);
                    tokens.append(&mut body);
                    tokens.push(EOT);
                    if add_empty_assistant {
                        tokens.push(START_HEADER);
                        tokens.push(assistant_id[0]);
                        tokens.push(END_HEADER);
                        tokens.push(HEADER_SEP);
                    }
                    assert(tokens@ =~= spec_turn_template(m, user@, add_empty_assistant)->0);
                    Some(tokens)
                } else if user.is_empty() {
                    None
                } else {
                    let mut tokens: Vec<u32> = Vec::new();
                    if self.add_bos_token {
                        tokens.push(self.bos);
                    }
                    proof {
                        lemma_can_encode_text(self.model(), user@);
                    }
                    let mut body = self.encode(user, false, false);
                    tokens.append(&mut body);
                    Some(tokens)
                }
            },
        }
    }
}

} // verus!
