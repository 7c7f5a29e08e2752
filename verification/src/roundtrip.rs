//! What decoding gives back of an encoded text.
use vstd::prelude::*;
use vstd::utf8::*;

use crate::bpe::{
    joined_text, lemma_bpe_keeps_text, lemma_encode_utf8_concat, lemma_encode_utf8_injective,
    lemma_joined_text_concat, lemma_joined_text_single, spec_bpe, tokens_in_vocab,
};
use crate::tokenizer::{
    char_decoded_bytes, gpt2_codepoint, is_gpt2_pre, lemma_gpt2_alphabet_bijective, piece_tokens,
    spaced_text, spec_byte_encode, spec_byte_token, spec_char_encode, spec_char_tokens,
    spec_decoded_bytes, spec_decoded_text, spec_encode, spec_encode_body, spec_pieces_tokens,
    text_decoded_bytes, regex_match_ranges, TokenizerModel, GPT2_PATTERN, chat_render, spec_render,
    template_tokens, next_open, longest_token_at, lemma_next_open, lemma_longest_token_at,
};
use crate::vocab_index::{lemma_first_from, lemma_last_before, spec_find_first, spec_find_last, text_bytes};

verus! {

/// Every byte's GPT-2 character is the text of some token.
pub open spec fn covers_all_bytes(m: TokenizerModel) -> bool {
    forall|b: u8| #[trigger] spec_find_first(m.vocab, encode_scalar(gpt2_codepoint(b))) is Some
}

/// Every character of `text` is the text of some token.
pub open spec fn covers_all_chars(m: TokenizerModel, text: Seq<char>) -> bool {
    forall|i: int| 0 <= i < text.len() ==> #[trigger] spec_find_first(m.vocab, encode_scalar(text[i] as u32)) is Some
}

/// The GPT-2 characters of a byte sequence.
pub open spec fn gpt2_text(bytes: Seq<u8>) -> Seq<char> {
    bytes.map_values(|b: u8| gpt2_codepoint(b) as char)
}

/// The byte ranges follow one another from offset 0 without gaps, each
/// starting no later than it ends.
pub open spec fn contiguous(p: Seq<(usize, usize)>) -> bool {
    &&& p.len() > 0 ==> p[0].0 == 0
    &&& forall|k: int| 0 <= k < p.len() ==> (#[trigger] p[k]).0 <= p[k].1
    &&& forall|k: int| 0 < k < p.len() ==> p[k - 1].1 == (#[trigger] p[k]).0
}

/// Where contiguous ranges end.
pub open spec fn ranges_end(p: Seq<(usize, usize)>) -> int {
    if p.len() == 0 {
        0
    } else {
        p.last().1 as int
    }
}

/// The ranges split the whole of a text of `len` bytes.
pub open spec fn tiles(p: Seq<(usize, usize)>, len: nat) -> bool {
    contiguous(p) && ranges_end(p) == len
}

proof fn lemma_text_of_token(m: TokenizerModel, k: int, c: char)
    requires
        0 <= k < m.vocab.len(),
        text_bytes(m.vocab, k) == encode_scalar(c as u32),
    ensures
        m.vocab[k] == seq![c],
{
    assert(encode_utf8(seq![c]) =~= encode_scalar(c as u32) + encode_utf8(seq![c].drop_first()));
    assert(seq![c].drop_first() =~= Seq::<char>::empty());
    lemma_encode_utf8_injective(m.vocab[k], seq![c]);
}

proof fn lemma_text_decoded_bytes_concat(a: Seq<char>, b: Seq<char>)
    ensures
        text_decoded_bytes(a + b) == text_decoded_bytes(a) + text_decoded_bytes(b),
    decreases b.len(),
{
    if b.len() == 0 {
        assert(a + b =~= a);
        assert(text_decoded_bytes(a) + text_decoded_bytes(b) =~= text_decoded_bytes(a));
    } else {
        lemma_text_decoded_bytes_concat(a, b.drop_last());
        assert((a + b).drop_last() =~= a + b.drop_last());
        assert((a + b).last() == b.last());
        assert(text_decoded_bytes(a + b) =~= text_decoded_bytes(a) + text_decoded_bytes(b));
    }
}

/// Each byte's GPT-2 character decodes back to the byte.
proof fn lemma_gpt2_text_decodes(bytes: Seq<u8>)
    ensures
        text_decoded_bytes(gpt2_text(bytes)) == bytes,
    decreases bytes.len(),
{
    if bytes.len() > 0 {
        let b = bytes.last();
        lemma_gpt2_text_decodes(bytes.drop_last());
        assert(gpt2_text(bytes).drop_last() =~= gpt2_text(bytes.drop_last()));
        let cp = gpt2_codepoint(b);
        lemma_gpt2_alphabet_bijective(b, cp);
        let c = cp as char;
        assert(c as u32 == cp);
        assert(gpt2_text(bytes).last() == c);
        assert(char_decoded_bytes(c) == seq![b]);
        assert(text_decoded_bytes(gpt2_text(bytes)) =~= bytes);
    }
}

/// In a vocabulary with every byte's character, byte tokens are single
/// characters: the joined text of a text's byte tokens is its GPT-2 text.
proof fn lemma_byte_tokens_text(m: TokenizerModel, bytes: Seq<u8>)
    requires
        m.byte_level,
        m.vocab.len() <= u32::MAX,
        covers_all_bytes(m),
    ensures
        tokens_in_vocab(m, spec_byte_encode(m, bytes)),
        joined_text(m, spec_byte_encode(m, bytes)) == gpt2_text(bytes),
    decreases bytes.len(),
{
    let toks = spec_byte_encode(m, bytes);
    assert forall|i: int| 0 <= i < toks.len() implies (#[trigger] toks[i]) < m.vocab.len() by {
        lemma_first_from(m.vocab, encode_scalar(gpt2_codepoint(bytes[i])), 0);
    }
    if bytes.len() > 0 {
        let b = bytes.last();
        lemma_byte_tokens_text(m, bytes.drop_last());
        assert(toks.drop_last() =~= spec_byte_encode(m, bytes.drop_last()));
        assert(gpt2_text(bytes).drop_last() =~= gpt2_text(bytes.drop_last()));
        let q = encode_scalar(gpt2_codepoint(b));
        lemma_first_from(m.vocab, q, 0);
        assert(spec_find_first(m.vocab, q) is Some);
        let k = spec_find_first(m.vocab, q)->0;
        let cp = gpt2_codepoint(b);
        lemma_gpt2_alphabet_bijective(b, cp);
        let c = cp as char;
        assert(c as u32 == cp);
        lemma_text_of_token(m, k, c);
        assert(toks.last() == spec_byte_token(m, b));
        assert(toks.last() as int == k);
        assert(joined_text(m, toks) =~= gpt2_text(bytes));
    }
}

/// The bytes of tokens of the vocabulary are the decoded bytes of their
/// joined text.
proof fn lemma_decoded_bytes_joined(m: TokenizerModel, toks: Seq<u32>)
    requires
        tokens_in_vocab(m, toks),
    ensures
        spec_decoded_bytes(m, toks) == text_decoded_bytes(joined_text(m, toks)),
    decreases toks.len(),
{
    if toks.len() > 0 {
        lemma_decoded_bytes_joined(m, toks.drop_last());
        lemma_text_decoded_bytes_concat(joined_text(m, toks.drop_last()), m.vocab[toks.last() as int]);
    }
}

/// The joined texts of tokens of the vocabulary.
proof fn lemma_decoded_text_joined(m: TokenizerModel, toks: Seq<u32>)
    requires
        tokens_in_vocab(m, toks),
    ensures
        spec_decoded_text(m, toks) == joined_text(m, toks),
    decreases toks.len(),
{
    if toks.len() > 0 {
        lemma_decoded_text_joined(m, toks.drop_last());
    }
}

/// Decoding the byte-level encoding of a text gives back the text's bytes:
/// with a vocabulary that holds every byte's GPT-2 character and a
/// pre-tokenizer other than GPT-2's, the decoded bytes of `encode(text)`
/// (without begin and end markers) are the UTF-8 bytes of `text`, so the
/// decoded string is `text` itself.
pub proof fn lemma_decode_encode_byte_level(m: TokenizerModel, text: Seq<char>)
    requires
        m.byte_level,
        !is_gpt2_pre(m.pre),
        m.vocab.len() <= u32::MAX,
        covers_all_bytes(m),
    ensures
        spec_decoded_bytes(m, spec_encode(m, text, false, false)) == encode_utf8(text),
        decode_utf8(spec_decoded_bytes(m, spec_encode(m, text, false, false))) == text,
{
    let bytes = encode_utf8(text);
    let toks0 = spec_byte_encode(m, bytes);
    lemma_byte_tokens_text(m, bytes);
    lemma_bpe_keeps_text(m, toks0);
    let toks = spec_bpe(m, toks0);
    assert(spec_encode(m, text, false, false) =~= toks);
    lemma_decoded_bytes_joined(m, toks);
    lemma_gpt2_text_decodes(bytes);
    encode_utf8_decode_utf8(text);
}

/// The tokens of a character that is itself a token are that token.
proof fn lemma_char_tokens_text(m: TokenizerModel, s: Seq<char>)
    requires
        m.vocab.len() <= u32::MAX,
        covers_all_chars(m, s),
    ensures
        tokens_in_vocab(m, spec_char_encode(m, s)),
        joined_text(m, spec_char_encode(m, s)) == s,
    decreases s.len(),
{
    if s.len() > 0 {
        let c = s.last();
        assert(covers_all_chars(m, s.drop_last())) by {
            assert forall|i: int| 0 <= i < s.drop_last().len() implies #[trigger] spec_find_first(
                m.vocab,
                encode_scalar(s.drop_last()[i] as u32),
            ) is Some by {
                assert(s.drop_last()[i] == s[i]);
            }
        }
        lemma_char_tokens_text(m, s.drop_last());
        let q = encode_scalar(c as u32);
        assert(spec_find_first(m.vocab, encode_scalar(s[s.len() - 1] as u32)) is Some);
        lemma_first_from(m.vocab, q, 0);
        let k = spec_find_first(m.vocab, q)->0;
        lemma_text_of_token(m, k, c);
        let a = spec_char_encode(m, s.drop_last());
        let t = seq![k as u32];
        assert(spec_char_tokens(m, c) == t);
        lemma_joined_text_concat(m, a, t);
        lemma_joined_text_single(m, k as u32);
        assert(s =~= s.drop_last() + seq![c]);
        assert forall|i: int| 0 <= i < (a + t).len() implies (#[trigger] (a + t)[i]) < m.vocab.len() by {
            if i < a.len() {
                assert((a + t)[i] == a[i]);
            }
        }
    }
}

/// Decoding the character-level encoding of a text gives back the text:
/// when every character of `text` is a token of a character-level
/// vocabulary and the pre-tokenizer is not GPT-2's, the joined texts of
/// `encode(text)` (without begin and end markers) are `text`.
pub proof fn lemma_decode_encode_char_level(m: TokenizerModel, text: Seq<char>)
    requires
        !m.byte_level,
        !is_gpt2_pre(m.pre),
        m.vocab.len() <= u32::MAX,
        covers_all_chars(m, text),
    ensures
        spec_decoded_text(m, spec_encode(m, text, false, false)) == text,
{
    let toks0 = spec_char_encode(m, text);
    lemma_char_tokens_text(m, text);
    lemma_bpe_keeps_text(m, toks0);
    let toks = spec_bpe(m, toks0);
    assert(spec_encode(m, text, false, false) =~= toks);
    lemma_decoded_text_joined(m, toks);
}

/// Decoded bytes of the pieces' tokens are the bytes the pieces cover.
proof fn lemma_pieces_decode(m: TokenizerModel, bytes: Seq<u8>, p: Seq<(usize, usize)>)
    requires
        m.byte_level,
        m.vocab.len() <= u32::MAX,
        covers_all_bytes(m),
        contiguous(p),
        ranges_end(p) <= bytes.len(),
    ensures
        tokens_in_vocab(m, spec_pieces_tokens(m, bytes, p)),
        spec_decoded_bytes(m, spec_pieces_tokens(m, bytes, p)) == bytes.subrange(0, ranges_end(p)),
    decreases p.len(),
{
    if p.len() == 0 {
        assert(bytes.subrange(0, 0) =~= Seq::<u8>::empty());
    } else {
        let q = p.drop_last();
        let last = p.last();
        assert(contiguous(q)) by {
            assert forall|k: int| 0 <= k < q.len() implies (#[trigger] q[k]).0 <= q[k].1 by {
                assert(q[k] == p[k]);
            }
            assert forall|k: int| 0 < k < q.len() implies q[k - 1].1 == (#[trigger] q[k]).0 by {
                assert(q[k] == p[k]);
                assert(q[k - 1] == p[k - 1]);
            }
        }
        assert(p[p.len() - 1] == last);
        if q.len() > 0 {
            assert(q.last() == p[p.len() - 2]);
            assert(ranges_end(q) == last.0);
        } else {
            assert(last.0 == 0);
        }
        lemma_pieces_decode(m, bytes, q);
        let a = spec_pieces_tokens(m, bytes, q);
        let piece = bytes.subrange(last.0 as int, last.1 as int);
        let t0 = spec_byte_encode(m, piece);
        lemma_byte_tokens_text(m, piece);
        lemma_bpe_keeps_text(m, t0);
        let t = spec_bpe(m, t0);
        assert(piece_tokens(m, bytes, last) == t);
        lemma_decoded_bytes_joined(m, t);
        lemma_gpt2_text_decodes(piece);
        lemma_decoded_bytes_joined(m, a);
        lemma_joined_text_concat(m, a, t);
        lemma_decoded_bytes_joined(m, a + t);
        lemma_text_decoded_bytes_concat(joined_text(m, a), joined_text(m, t));
        assert forall|i: int| 0 <= i < (a + t).len() implies (#[trigger] (a + t)[i]) < m.vocab.len() by {
            if i < a.len() {
                assert((a + t)[i] == a[i]);
            } else {
                assert((a + t)[i] == t[i - a.len()]);
            }
        }
        assert(bytes.subrange(0, ranges_end(p)) =~= bytes.subrange(0, last.0 as int) + piece);
    }
}

/// Decoding the GPT-2 style encoding of a text gives back the text it split:
/// when the vocabulary holds every byte's GPT-2 character and the pattern's
/// matches split the whole of the (space-prefixed) text, the decoded bytes
/// of `encode(text)` (without begin and end markers) are that text's UTF-8
/// bytes, and the decoded string is that text.
pub proof fn lemma_decode_encode_gpt2(m: TokenizerModel, text: Seq<char>)
    requires
        m.byte_level,
        is_gpt2_pre(m.pre),
        m.vocab.len() <= u32::MAX,
        covers_all_bytes(m),
        regex_match_ranges(GPT2_PATTERN@, spaced_text(m, text)) matches Some(p) && tiles(
            p,
            encode_utf8(spaced_text(m, text)).len(),
        ),
    ensures
        spec_decoded_bytes(m, spec_encode(m, text, false, false)) == encode_utf8(spaced_text(m, text)),
        decode_utf8(spec_decoded_bytes(m, spec_encode(m, text, false, false))) == spaced_text(m, text),
{
    let t = spaced_text(m, text);
    let bytes = encode_utf8(t);
    let p = regex_match_ranges(GPT2_PATTERN@, t)->0;
    lemma_pieces_decode(m, bytes, p);
    assert(spec_encode(m, text, false, false) =~= spec_pieces_tokens(m, bytes, p));
    assert(bytes.subrange(0, ranges_end(p)) =~= bytes);
    encode_utf8_decode_utf8(t);
}


/// Every token whose text starts with `<` (the special tokens a rendered
/// chat template is matched against) decodes to its own UTF-8 bytes, as
/// plain ASCII spellings such as `<|eot_id|>` do.
pub open spec fn special_tokens_plain(m: TokenizerModel) -> bool {
    forall|id: int|
        0 <= id < m.vocab.len() && m.vocab[id].len() > 0 && m.vocab[id][0] == '<' ==> #[trigger] text_decoded_bytes(
            m.vocab[id],
        ) == encode_utf8(m.vocab[id])
}

proof fn lemma_decoded_bytes_concat(m: TokenizerModel, a: Seq<u32>, b: Seq<u32>)
    ensures
        spec_decoded_bytes(m, a + b) == spec_decoded_bytes(m, a) + spec_decoded_bytes(m, b),
    decreases b.len(),
{
    if b.len() == 0 {
        assert(a + b =~= a);
        assert(spec_decoded_bytes(m, a) + spec_decoded_bytes(m, b) =~= spec_decoded_bytes(m, a));
    } else {
        lemma_decoded_bytes_concat(m, a, b.drop_last());
        assert((a + b).drop_last() =~= a + b.drop_last());
        assert((a + b).last() == b.last());
        assert(spec_decoded_bytes(m, a + b) =~= spec_decoded_bytes(m, a) + spec_decoded_bytes(m, b));
    }
}

proof fn lemma_hit_decodes(m: TokenizerModel, t: Seq<char>, p: int, id: int, k: int)
    requires
        special_tokens_plain(m),
        m.vocab.len() <= u32::MAX,
        0 <= p,
        k >= 1,
        p + k <= t.len(),
        t[p] == '<',
        spec_find_last(m.vocab, encode_utf8(t.subrange(p, p + k))) == Some(id),
    ensures
        0 <= id < m.vocab.len(),
        spec_decoded_bytes(m, seq![id as u32]) == encode_utf8(t.subrange(p, p + k)),
{
    let sub = t.subrange(p, p + k);
    lemma_last_before(m.vocab, encode_utf8(sub), m.vocab.len() as int);
    lemma_encode_utf8_injective(m.vocab[id], sub);
    assert(m.vocab[id][0] == t[p]);
    assert(text_decoded_bytes(m.vocab[id]) == encode_utf8(m.vocab[id]));
    let one = seq![id as u32];
    assert(one.drop_last() =~= Seq::<u32>::empty());
    assert(spec_decoded_bytes(m, Seq::<u32>::empty()) =~= Seq::<u8>::empty());
    assert(one.last() as int == id);
    assert(spec_decoded_bytes(m, one) =~= text_decoded_bytes(m.vocab[id]));
}

proof fn lemma_split_decodes(m: TokenizerModel, t: Seq<char>, p: int, q: int, head: Seq<u32>, tail: Seq<u32>)
    requires
        0 <= p <= q <= t.len(),
        spec_decoded_bytes(m, head) == encode_utf8(t.subrange(p, q)),
        spec_decoded_bytes(m, tail) == encode_utf8(t.subrange(q, t.len() as int)),
    ensures
        spec_decoded_bytes(m, head + tail) == encode_utf8(t.subrange(p, t.len() as int)),
{
    lemma_decoded_bytes_concat(m, head, tail);
    assert(t.subrange(p, t.len() as int) =~= t.subrange(p, q) + t.subrange(q, t.len() as int));
    lemma_encode_utf8_concat(t.subrange(p, q), t.subrange(q, t.len() as int));
}

/// The tokens of a rendered template, from position `p` on, decode to the
/// UTF-8 bytes of the rest of the text.
proof fn lemma_template_tokens_decode(m: TokenizerModel, t: Seq<char>, p: int)
    requires
        m.byte_level,
        !is_gpt2_pre(m.pre),
        m.vocab.len() <= u32::MAX,
        covers_all_bytes(m),
        special_tokens_plain(m),
        0 <= p <= t.len(),
    ensures
        spec_decoded_bytes(m, template_tokens(m, t, p)) == encode_utf8(t.subrange(p, t.len() as int)),
    decreases t.len() - p,
{
    if p >= t.len() {
        assert(t.subrange(p, t.len() as int) =~= Seq::<char>::empty());
        assert(encode_utf8(t.subrange(p, t.len() as int)) =~= Seq::<u8>::empty());
        assert(spec_decoded_bytes(m, template_tokens(m, t, p)) =~= Seq::<u8>::empty());
    } else {
        let hit = if t[p] == '<' {
            longest_token_at(m, t, p, t.len() - p)
        } else {
            None
        };
        lemma_longest_token_at(m, t, p, t.len() - p);
        match hit {
            Some((id, k)) => {
                lemma_hit_decodes(m, t, p, id, k);
                lemma_template_tokens_decode(m, t, p + k);
                lemma_split_decodes(m, t, p, p + k, seq![id as u32], template_tokens(m, t, p + k));
                assert(template_tokens(m, t, p) == seq![id as u32] + template_tokens(m, t, p + k));
            },
            None => {
                let q = next_open(t, p + 1);
                lemma_next_open(t, p + 1);
                lemma_decode_encode_byte_level(m, t.subrange(p, q));
                lemma_template_tokens_decode(m, t, q);
                lemma_split_decodes(m, t, p, q, spec_encode(m, t.subrange(p, q), false, false), template_tokens(m, t, q));
                assert(template_tokens(m, t, p) == spec_encode(m, t.subrange(p, q), false, false) + template_tokens(
                    m,
                    t,
                    q,
                ));
            },
        }
    }
}

/// Decoding a rendered chat template gives back the rendered text: with a
/// byte-level vocabulary that holds every byte's GPT-2 character, a
/// pre-tokenizer other than GPT-2's, and special tokens spelled in plain
/// characters, the tokens of a rendered template decode to the UTF-8 bytes
/// of the text the template rendered, so the decoded string is that text.
pub proof fn lemma_decode_rendered_template(
    m: TokenizerModel,
    template: Seq<char>,
    msgs: Seq<(Seq<char>, Seq<char>)>,
    add: bool,
)
    requires
        m.byte_level,
        !is_gpt2_pre(m.pre),
        m.vocab.len() <= u32::MAX,
        covers_all_bytes(m),
        special_tokens_plain(m),
    ensures
        chat_render(template, msgs, add) matches Some(s) ==> spec_render(m, template, msgs, add) matches Some(ids)
            && spec_decoded_bytes(m, ids) == encode_utf8(s) && valid_utf8(spec_decoded_bytes(m, ids))
            && decode_utf8(spec_decoded_bytes(m, ids)) == s,
{
    if let Some(s) = chat_render(template, msgs, add) {
        lemma_template_tokens_decode(m, s, 0);
        assert(s.subrange(0, s.len() as int) =~= s);
        encode_utf8_valid_utf8(s);
        encode_utf8_decode_utf8(s);
    }
}

} // verus!
