//! Byte-pair merging over a tokenizer's vocabulary: what the merge loop
//! computes, and the facts about token texts that the tokenizer's laws use.
use vstd::prelude::*;
use vstd::utf8::*;

use crate::tokenizer::{TokenizerModel, SCORE_KEY_FLOOR};
use crate::vocab_index::{lemma_first_from, spec_find_first, text_bytes};

verus! {

// ---------------------------------------------------------------------------
// Texts of token sequences
// ---------------------------------------------------------------------------

/// Every token is an id of the vocabulary.
pub open spec fn tokens_in_vocab(m: TokenizerModel, toks: Seq<u32>) -> bool {
    forall|i: int| 0 <= i < toks.len() ==> (#[trigger] toks[i]) < m.vocab.len()
}

/// The texts of the tokens, joined.
pub open spec fn joined_text(m: TokenizerModel, toks: Seq<u32>) -> Seq<char>
    decreases toks.len(),
{
    if toks.len() == 0 {
        Seq::empty()
    } else {
        joined_text(m, toks.drop_last()) + m.vocab[toks.last() as int]
    }
}

pub proof fn lemma_joined_text_concat(m: TokenizerModel, a: Seq<u32>, b: Seq<u32>)
    ensures
        joined_text(m, a + b) == joined_text(m, a) + joined_text(m, b),
    decreases b.len(),
{
    if b.len() == 0 {
        assert(a + b =~= a);
        assert(joined_text(m, a) + joined_text(m, b) =~= joined_text(m, a));
    } else {
        lemma_joined_text_concat(m, a, b.drop_last());
        assert((a + b).drop_last() =~= a + b.drop_last());
        assert((a + b).last() == b.last());
        assert(joined_text(m, a + b) =~= joined_text(m, a) + joined_text(m, b));
    }
}

pub proof fn lemma_joined_text_single(m: TokenizerModel, t: u32)
    ensures
        joined_text(m, seq![t]) == m.vocab[t as int],
{
    assert(seq![t].drop_last() =~= Seq::<u32>::empty());
    assert(joined_text(m, Seq::<u32>::empty()) == Seq::<char>::empty());
    assert(seq![t].last() == t);
    assert(Seq::<char>::empty() + m.vocab[t as int] =~= m.vocab[t as int]);
}

/// The UTF-8 encoding of two joined texts is the two encodings joined.
pub proof fn lemma_encode_utf8_concat(a: Seq<char>, b: Seq<char>)
    ensures
        encode_utf8(a + b) == encode_utf8(a) + encode_utf8(b),
    decreases a.len(),
{
    if a.len() == 0 {
        assert(a + b =~= b);
        assert(encode_utf8(a) + encode_utf8(b) =~= encode_utf8(b));
    } else {
        lemma_encode_utf8_concat(a.drop_first(), b);
        assert((a + b).drop_first() =~= a.drop_first() + b);
        assert((a + b)[0] == a[0]);
        assert(encode_utf8(a + b) =~= encode_utf8(a) + encode_utf8(b));
    }
}

/// Texts with the same UTF-8 encoding are the same text.
pub proof fn lemma_encode_utf8_injective(a: Seq<char>, b: Seq<char>)
    requires
        encode_utf8(a) == encode_utf8(b),
    ensures
        a == b,
{
    encode_utf8_decode_utf8(a);
    encode_utf8_decode_utf8(b);
}

// ---------------------------------------------------------------------------
// The merge loop
// ---------------------------------------------------------------------------

/// The UTF-8 bytes of the texts of the pair of tokens at `i` and `i + 1`.
pub open spec fn pair_bytes(m: TokenizerModel, toks: Seq<u32>, i: int) -> Seq<u8> {
    text_bytes(m.vocab, toks[i] as int) + text_bytes(m.vocab, toks[i + 1] as int)
}

/// The token (lowest id) whose text is the pair at `i` joined, if any.
pub open spec fn merge_at(m: TokenizerModel, toks: Seq<u32>, i: int) -> Option<int> {
    spec_find_first(m.vocab, pair_bytes(m, toks, i))
}

/// The score a candidate must beat: that of the best merge so far, or the
/// floor when there is none.
pub open spec fn best_score(m: TokenizerModel, best: Option<(int, int)>) -> u64 {
    match best {
        Some((_, id)) => m.scores[id],
        None => SCORE_KEY_FLOOR,
    }
}

/// The best merge among the pairs starting before `n`, as (position, token):
/// the first pair whose merged token has the highest score, provided that
/// score is above the floor.
pub open spec fn best_merge_before(m: TokenizerModel, toks: Seq<u32>, n: int) -> Option<(int, int)>
    decreases n,
{
    if n <= 0 {
        None
    } else {
        let prev = best_merge_before(m, toks, n - 1);
        match merge_at(m, toks, n - 1) {
            Some(id) => if m.scores[id] > best_score(m, prev) {
                Some((n - 1, id))
            } else {
                prev
            },
            None => prev,
        }
    }
}

/// The best merge of the whole sequence.
pub open spec fn best_merge(m: TokenizerModel, toks: Seq<u32>) -> Option<(int, int)> {
    best_merge_before(m, toks, toks.len() - 1)
}

/// Replaces the pair at `i` by the token `id`.
pub open spec fn merge_step(toks: Seq<u32>, i: int, id: int) -> Seq<u32> {
    toks.take(i).push(id as u32) + toks.skip(i + 2)
}

/// Repeatedly applies the best merge until no pair can be merged.
pub open spec fn spec_bpe(m: TokenizerModel, toks: Seq<u32>) -> Seq<u32>
    decreases toks.len(),
{
    match best_merge(m, toks) {
        Some((i, id)) => if 0 <= i && i + 2 <= toks.len() {
            spec_bpe(m, merge_step(toks, i, id))
        } else {
            toks
        },
        None => toks,
    }
}

pub proof fn lemma_best_merge_before(m: TokenizerModel, toks: Seq<u32>, n: int)
    requires
        0 <= n,
        n + 1 <= toks.len(),
    ensures
        best_merge_before(m, toks, n) matches Some((i, id)) ==> 0 <= i < n && merge_at(m, toks, i) == Some(id)
            && m.scores[id] > SCORE_KEY_FLOOR,
    decreases n,
{
    if n > 0 {
        lemma_best_merge_before(m, toks, n - 1);
    }
}

/// The token a merge produces is in the vocabulary and its text is the pair's
/// texts joined.
pub proof fn lemma_merge_at(m: TokenizerModel, toks: Seq<u32>, i: int)
    requires
        0 <= i,
        i + 1 < toks.len(),
    ensures
        merge_at(m, toks, i) matches Some(id) ==> 0 <= id < m.vocab.len() && m.vocab[id] == m.vocab[toks[i] as int]
            + m.vocab[toks[i + 1] as int],
{
    lemma_first_from(m.vocab, pair_bytes(m, toks, i), 0);
    if let Some(id) = merge_at(m, toks, i) {
        lemma_encode_utf8_concat(m.vocab[toks[i] as int], m.vocab[toks[i + 1] as int]);
        lemma_encode_utf8_injective(m.vocab[id], m.vocab[toks[i] as int] + m.vocab[toks[i + 1] as int]);
    }
}

/// Merging keeps the tokens in the vocabulary and keeps their joined text:
/// the merged token's text is the text of the pair it replaces.
pub proof fn lemma_merge_step_text(m: TokenizerModel, toks: Seq<u32>, i: int, id: int)
    requires
        m.vocab.len() <= u32::MAX,
        tokens_in_vocab(m, toks),
        0 <= i,
        i + 2 <= toks.len(),
        merge_at(m, toks, i) == Some(id),
    ensures
        tokens_in_vocab(m, merge_step(toks, i, id)),
        joined_text(m, merge_step(toks, i, id)) == joined_text(m, toks),
        merge_step(toks, i, id).len() == toks.len() - 1,
{
    lemma_merge_at(m, toks, i);
    let pre = toks.take(i);
    let post = toks.skip(i + 2);
    let pair = seq![toks[i], toks[i + 1]];
    let single = seq![id as u32];
    assert(toks =~= (pre + pair) + post);
    assert(merge_step(toks, i, id) =~= (pre + single) + post);
    lemma_joined_text_concat(m, pre + single, post);
    lemma_joined_text_concat(m, pre, single);
    lemma_joined_text_concat(m, pre + pair, post);
    lemma_joined_text_concat(m, pre, pair);
    lemma_joined_text_single(m, id as u32);
    assert(pair.drop_last() =~= seq![toks[i]]);
    lemma_joined_text_single(m, toks[i]);
    assert(joined_text(m, pair) =~= m.vocab[toks[i] as int] + m.vocab[toks[i + 1] as int]);
    assert(joined_text(m, merge_step(toks, i, id)) =~= joined_text(m, toks));
}

/// Byte-pair merging never changes the joined text of a token sequence, and
/// what it returns is made of vocabulary tokens.
pub proof fn lemma_bpe_keeps_text(m: TokenizerModel, toks: Seq<u32>)
    requires
        m.vocab.len() <= u32::MAX,
        tokens_in_vocab(m, toks),
    ensures
        joined_text(m, spec_bpe(m, toks)) == joined_text(m, toks),
        tokens_in_vocab(m, spec_bpe(m, toks)),
    decreases toks.len(),
{
    if toks.len() >= 2 {
        lemma_best_merge_before(m, toks, toks.len() - 1);
        if let Some((i, id)) = best_merge(m, toks) {
            lemma_merge_step_text(m, toks, i, id);
            lemma_bpe_keeps_text(m, merge_step(toks, i, id));
        }
    }
}


/// Among the pairs starting before `n`, the chosen merge scores at least as
/// high as every mergeable pair and strictly higher than every earlier one;
/// when nothing is chosen, no pair scores above the floor.
proof fn lemma_best_merge_before_is_highest(m: TokenizerModel, toks: Seq<u32>, n: int)
    requires
        0 <= n,
    ensures
        best_merge_before(m, toks, n) matches Some((i, id)) ==> 0 <= i < n && merge_at(m, toks, i) == Some(id)
            && m.scores[id] > SCORE_KEY_FLOOR && forall|j: int|
            0 <= j < n && (#[trigger] merge_at(m, toks, j)) is Some ==> m.scores[merge_at(m, toks, j)->0]
                <= m.scores[id] && (j < i ==> m.scores[merge_at(m, toks, j)->0] < m.scores[id]),
        best_merge_before(m, toks, n) is None ==> forall|j: int|
            0 <= j < n && (#[trigger] merge_at(m, toks, j)) is Some ==> m.scores[merge_at(m, toks, j)->0]
                <= SCORE_KEY_FLOOR,
    decreases n,
{
    if n > 0 {
        lemma_best_merge_before_is_highest(m, toks, n - 1);
    }
}

/// Each merge step takes the highest-priority pair: the chosen pair's merged
/// token scores above the floor, at least as high as the merged token of
/// every other adjacent pair, and strictly higher than that of every pair
/// before it (the first of equal best pairs wins). When no pair is chosen,
/// no adjacent pair's merged token scores above the floor.
pub proof fn lemma_best_merge_is_highest(m: TokenizerModel, toks: Seq<u32>)
    ensures
        best_merge(m, toks) matches Some((i, id)) ==> 0 <= i && i + 2 <= toks.len() && merge_at(m, toks, i)
            == Some(id) && m.scores[id] > SCORE_KEY_FLOOR && forall|j: int|
            0 <= j && j + 2 <= toks.len() && (#[trigger] merge_at(m, toks, j)) is Some ==> m.scores[merge_at(
                m,
                toks,
                j,
            )->0] <= m.scores[id] && (j < i ==> m.scores[merge_at(m, toks, j)->0] < m.scores[id]),
        best_merge(m, toks) is None ==> forall|j: int|
            0 <= j && j + 2 <= toks.len() && (#[trigger] merge_at(m, toks, j)) is Some ==> m.scores[merge_at(
                m,
                toks,
                j,
            )->0] <= SCORE_KEY_FLOOR,
{
    if toks.len() >= 1 {
        lemma_best_merge_before_is_highest(m, toks, toks.len() - 1);
    }
}

/// Merging runs until no adjacent pair of the result can be merged: every
/// pair whose joined text is a token has a merged token scoring at most the
/// floor.
pub proof fn lemma_bpe_leaves_no_merge(m: TokenizerModel, toks: Seq<u32>)
    ensures
        forall|j: int|
            0 <= j && j + 2 <= spec_bpe(m, toks).len() && (#[trigger] merge_at(m, spec_bpe(m, toks), j)) is Some
                ==> m.scores[merge_at(m, spec_bpe(m, toks), j)->0] <= SCORE_KEY_FLOOR,
    decreases toks.len(),
{
    lemma_best_merge_is_highest(m, toks);
    if let Some((i, id)) = best_merge(m, toks) {
        assert(merge_step(toks, i, id).len() == toks.len() - 1);
        lemma_bpe_leaves_no_merge(m, merge_step(toks, i, id));
    }
}

} // verus!
