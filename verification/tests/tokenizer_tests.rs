//! The BPE tokenizer.

use yallma3_llm::tokenizer::{
    build_gpt2_byte_table, f32_order_key, gpt2_byte_char, gpt2_byte_for, ChatTemplateError, Tokenizer,
    TokenizerFileError, BEGIN_OF_TEXT, END_HEADER, EOT, HEADER_SEP, SCORE_KEY_FLOOR, SCORE_KEY_ZERO,
    START_HEADER,
};
use yallma3_llm::json::TokenizerJsonError;

fn gpt2_char(b: u8) -> String {
    char::from_u32(gpt2_byte_char(b)).unwrap().to_string()
}

/// The 256 byte characters, then the extra texts.
fn byte_vocab(extra: &[&str]) -> Vec<String> {
    let mut v: Vec<String> = (0..=255u8).map(gpt2_char).collect();
    for e in extra {
        v.push(e.to_string());
    }
    v
}

fn byte_level(extra: &[&str], merges: &[&str], pre: &str) -> Tokenizer {
    Tokenizer::from_gguf_parts(
        byte_vocab(extra),
        merges.iter().map(|s| s.to_string()).collect(),
        1,
        2,
        pre.to_string(),
        true,
        false,
    )
}

#[test]
fn gpt2_alphabet_round_trips() {
    let table = build_gpt2_byte_table();
    assert_eq!(table.len(), 256);
    for b in 0..=255u8 {
        assert_eq!(gpt2_byte_for(table[b as usize]), Some(b));
    }
    assert_eq!(gpt2_byte_char(b'a'), 'a' as u32);
    assert_eq!(gpt2_byte_char(b' '), 0x120);
    assert_eq!(gpt2_byte_char(0), 0x100);
    assert_eq!(gpt2_byte_char(0x7F), 0x121);
    assert_eq!(gpt2_byte_char(0xAD), 0x143);
    assert_eq!(gpt2_byte_for(0x144), None);
}

#[test]
fn order_keys_compare_like_floats() {
    let vals = [-1e10f32, -2.5, -0.0, 0.0, 1.0, 3.5, f32::INFINITY];
    for i in 0..vals.len() {
        for j in 0..vals.len() {
            let a = f32_order_key(vals[i].to_bits());
            let b = f32_order_key(vals[j].to_bits());
            assert_eq!(vals[i] > vals[j], a > b, "{} vs {}", vals[i], vals[j]);
        }
    }
    assert_eq!(f32_order_key((-1e10f32).to_bits()), SCORE_KEY_FLOOR);
    assert_eq!(f32_order_key(0.0f32.to_bits()), SCORE_KEY_ZERO);
    assert_eq!(f32_order_key(f32::NAN.to_bits()), 0);
}

#[test]
fn merges_apply_by_priority() {
    let t = byte_level(&["ab", "abc", "bc"], &["a b", "ab c", "b c"], "default");
    let ab = 256;
    let abc = 257;
    assert_eq!(t.encode("abc", false, false), vec![abc]);
    assert_eq!(t.encode("ab", false, false), vec![ab]);
    assert_eq!(t.encode("cab", false, false), vec![b'c' as u32, ab]);
    assert_eq!(t.decode(&[abc]), "abc");
}

#[test]
fn encode_adds_markers() {
    let t = byte_level(&[], &[], "default");
    assert_eq!(t.encode("hi", true, true), vec![1, b'h' as u32, b'i' as u32, 2]);
    assert_eq!(t.encode("hi", false, true), vec![b'h' as u32, b'i' as u32, 2]);
}

#[test]
fn byte_level_round_trip() {
    let t = byte_level(&["he", "ll", "hello", "hell"], &["h e", "l l", "he ll", "hell o"], "default");
    for text in ["hello world", "héllo ☃ wörld", "\u{0}\u{7f}\n\t", "a", "💖"] {
        let ids = t.encode(text, false, false);
        assert_eq!(t.decode(&ids), text);
        assert_eq!(t.decoded_bytes(&ids), text.as_bytes().to_vec());
    }
    assert_eq!(t.encode("hello", false, false), vec![258]);
}

#[test]
fn decode_skips_unknown_ids_and_repairs_invalid_utf8() {
    let t = byte_level(&[], &[], "default");
    assert_eq!(t.decode(&[b'o' as u32, 100000, b'k' as u32]), "ok");
    // A lone continuation byte decodes to the replacement character.
    assert_eq!(t.decode(&[0x80]), "\u{FFFD}");
    assert_eq!(t.decoded_bytes(&[0x80]), vec![0x80]);
}

#[test]
fn gpt2_pretokenizer_splits_words() {
    let t = byte_level(&["Ġw", "Ġwo"], &["Ġ w", "Ġw o"], "gpt2");
    let ids = t.encode("a wo", false, false);
    assert_eq!(ids, vec![b'a' as u32, 257]);
    assert_eq!(t.decode(&ids), "a wo");
}

#[test]
fn space_prefix_is_added_once() {
    let t = Tokenizer::from_gguf_parts(byte_vocab(&[]), vec![], 1, 2, "smollm".into(), true, true);
    assert_eq!(t.decode(&t.encode("hi", false, false)), " hi");
    assert_eq!(t.decode(&t.encode(" hi", false, false)), " hi");
}

#[test]
fn encode_pieces_skips_ranges_outside_the_text() {
    let t = byte_level(&["ab"], &["a b"], "default");
    let ids = t.encode_pieces(b"abab", &[(0, 2), (2, 3), (3, 9), (2, 1)]);
    assert_eq!(ids, vec![256, b'a' as u32]);
}

fn bin_file(entries: &[(f32, &str)], bos: u32, eos: u32) -> Vec<u8> {
    let mut d = Vec::new();
    d.extend_from_slice(&(entries.len() as u32).to_le_bytes());
    d.extend_from_slice(&0u32.to_le_bytes());
    d.extend_from_slice(&bos.to_le_bytes());
    d.extend_from_slice(&eos.to_le_bytes());
    for (score, text) in entries {
        d.extend_from_slice(&score.to_le_bytes());
        d.extend_from_slice(&(text.len() as u32).to_le_bytes());
        d.extend_from_slice(text.as_bytes());
    }
    d
}

fn char_level_entries() -> Vec<(f32, String)> {
    let mut e: Vec<(f32, String)> = vec![(0.0, "<unk>".into()), (0.0, "<s>".into()), (0.0, "</s>".into())];
    for b in 0..=255u32 {
        e.push((0.0, format!("<0x{:02X}>", b)));
    }
    for (s, t) in [(-1.0, "a"), (-2.0, "b"), (-3.0, "c"), (-0.5, "ab"), (-0.25, "abc")] {
        e.push((s, t.into()));
    }
    e
}

#[test]
fn tokenizer_file_parses() {
    let e = char_level_entries();
    let refs: Vec<(f32, &str)> = e.iter().map(|(s, t)| (*s, t.as_str())).collect();
    let t = Tokenizer::new(&bin_file(&refs, 1, 2)).unwrap();
    assert_eq!(t.bos, 1);
    assert_eq!(t.eos, 2);
    assert!(t.add_bos_token);
    assert!(!t.add_space_prefix);
    assert!(t.chat_template.is_none());
    let a = 259;
    let abc = 263;
    assert_eq!(t.encode("abc", false, false), vec![abc]);
    assert_eq!(t.encode("ba", false, false), vec![a + 1, a]);
    // "é" is not a token: its two UTF-8 bytes fall back to byte tokens.
    assert_eq!(t.encode("é", false, false), vec![0xC3 + 3, 0xA9 + 3]);
    assert_eq!(t.decode(&[abc, a]), "abca");
    assert_eq!(t.decode(&t.encode("cab", false, false)), "cab");
}

#[test]
fn small_char_vocabulary_encodes_known_characters() {
    let t = Tokenizer::new(&bin_file(&[(0.0, "<unk>"), (0.0, "<s>"), (0.0, "</s>"), (-1.0, "h"), (-1.0, "i"), (0.5, "hi")], 1, 2))
        .unwrap();
    assert!(!t.is_encodable());
    assert!(t.is_text_encodable("hi", true));
    assert_eq!(t.encode("hi", true, false), vec![1, 5]);
    assert_eq!(t.encode("ih", false, false), vec![4, 3]);
    assert!(!t.is_text_encodable("hx", false));
    // A single starting token is never looked up, so it may lie past the vocabulary.
    assert!(t.is_text_encodable("x", false));
    assert_eq!(t.encode("x", false, false), vec![b'x' as u32 + 3]);
    assert!(!t.is_text_encodable("x", true));
}

#[test]
fn begin_marker_takes_part_in_merging() {
    let t = Tokenizer::new(&bin_file(&[(0.0, "<unk>"), (0.0, "<s>"), (0.0, "</s>"), (-1.0, "h"), (-1.0, "i"), (1.0, "<s>h")], 1, 2))
        .unwrap();
    assert_eq!(t.encode("hi", true, true), vec![5, 4, 2]);
    assert_eq!(t.encode("hi", false, true), vec![3, 4, 2]);
}

#[test]
fn tokenizer_file_errors() {
    assert_eq!(Tokenizer::new(&[0u8; 15]).unwrap_err(), TokenizerFileError::Truncated);
    let mut d = bin_file(&[(0.0, "ok")], 1, 2);
    d.pop();
    assert_eq!(Tokenizer::new(&d).unwrap_err(), TokenizerFileError::Truncated);
    let mut d = bin_file(&[(0.0, "ok")], 1, 2);
    let n = d.len();
    d[n - 1] = 0xFF;
    assert_eq!(Tokenizer::new(&d).unwrap_err(), TokenizerFileError::InvalidUtf8);
}

#[test]
fn tokenizer_json_builds_vocabulary() {
    let text = r#"{
        "model": {"vocab": {"a": 0, "b": 1, "ab": 2}, "merges": ["a b"]},
        "added_tokens": [{"id": 4, "content": "<|begin_of_text|>"}, {"id": 5, "content": "<|eot_id|>"}]
    }"#;
    let t = Tokenizer::from_json(text).unwrap();
    assert_eq!(t.bos, 4);
    assert_eq!(t.eos, 5);
    assert_eq!(t.decode(&[2, 3, 4]), "ab<|begin_of_text|>");
    assert_eq!(t.encode("ab", false, false), vec![2]);
}

#[test]
fn tokenizer_json_defaults_and_errors() {
    let t = Tokenizer::from_json(r#"{"model": {"vocab": {}, "merges": []}, "added_tokens": []}"#).unwrap();
    assert_eq!(t.bos, 128000);
    assert_eq!(t.eos, 128009);
    assert_eq!(Tokenizer::from_json("{").unwrap_err(), TokenizerJsonError::NotJson);
    assert_eq!(Tokenizer::from_json(r#"{"added_tokens": []}"#).unwrap_err(), TokenizerJsonError::MissingVocab);
    assert_eq!(
        Tokenizer::from_json(r#"{"model": {"vocab": {}}}"#).unwrap_err(),
        TokenizerJsonError::MissingAddedTokens
    );
    assert_eq!(
        Tokenizer::from_json(r#"{"model": {"vocab": {}}, "added_tokens": []}"#).unwrap_err(),
        TokenizerJsonError::MissingMerges
    );
    assert_eq!(
        Tokenizer::from_json(r#"{"model": {"vocab": {"a": -1}, "merges": []}, "added_tokens": []}"#).unwrap_err(),
        TokenizerJsonError::BadTokenId
    );
    assert_eq!(
        Tokenizer::from_json(r#"{"model": {"vocab": {}, "merges": []}, "added_tokens": [{"id": 1}]}"#).unwrap_err(),
        TokenizerJsonError::BadTokenContent
    );
    assert_eq!(
        Tokenizer::from_json(r#"{"model": {"vocab": {}, "merges": [["a", "b"]]}, "added_tokens": []}"#)
            .unwrap_err(),
        TokenizerJsonError::BadMerge
    );
    assert_eq!(
        Tokenizer::from_json(r#"{"model": {"vocab": {"a": 4294967295}, "merges": []}, "added_tokens": []}"#)
            .unwrap_err(),
        TokenizerJsonError::TooLarge
    );
}

#[test]
fn template_output_matches_special_tokens() {
    let t = byte_level(&["<|x|>", "<|xy|>", "<"], &[], "default");
    let ids = t.encode_template_output("a<|xy|>b<|x|>c<d");
    assert_eq!(ids, vec![b'a' as u32, 257, b'b' as u32, 256, b'c' as u32, 258, b'd' as u32]);
    let ids = t.encode_template_output("<|x|<");
    assert_eq!(ids, vec![258, b'|' as u32, b'x' as u32, b'|' as u32, 258]);
}

#[test]
fn chat_template_renders_messages() {
    let mut t = byte_level(&["<s>"], &[], "default");
    assert_eq!(t.render_chat_template(&[("user", "hi")], false), Some(Vec::<u32>::new()));
    let tpl = "{% for m in messages %}<s>{{ m.role }}:{{ m.content }}{% endfor %}{% if add_generation_prompt %}!{% endif %}";
    assert_eq!(t.set_chat_template(tpl.to_string()), Ok(()));
    let ids = t.render_chat_template(&[("user", "hi")], true).unwrap();
    assert_eq!(t.decode(&ids), "<s>user:hi!");
    assert_eq!(ids[0], 256);
    let sys = t.apply_system_template("be nice").unwrap();
    assert_eq!(t.decode(&sys), "<s>system:be nice");
    let turn = t.apply_turn_template("yo", true).unwrap();
    assert_eq!(t.decode(&turn), "<s>user:yo<s>assistant:!");
}

#[test]
fn rendered_template_decodes_to_rendered_text() {
    let mut t = byte_level(&["<|eot|>", "<|u|>"], &[], "default");
    let tpl = "{% for m in messages %}<|u|>{{ m.content }}<|eot|>{% endfor %}";
    assert_eq!(t.set_chat_template(tpl.to_string()), Ok(()));
    let ids = t.render_chat_template(&[("user", "héllo <ü>"), ("user", "a<|b")], false).unwrap();
    assert_eq!(t.decode(&ids), "<|u|>héllo <ü><|eot|><|u|>a<|b<|eot|>");
    assert_eq!(ids[0], 257);
}

#[test]
fn bad_chat_template_is_refused() {
    let mut t = byte_level(&[], &[], "default");
    assert_eq!(t.set_chat_template("{% for %}".to_string()), Err(ChatTemplateError::Rejected));
    assert!(t.chat_template.is_none());
    let tpl = "{{ raise_exception('no') }}";
    assert_eq!(t.set_chat_template(tpl.to_string()), Ok(()));
    assert_eq!(t.render_chat_template(&[("user", "hi")], false), None);
    assert_eq!(t.apply_turn_template("hi", false), None);
}

#[test]
fn plain_turns_without_template() {
    let t = byte_level(&[], &[], "default");
    assert!(!t.has_llama_tokens());
    assert_eq!(t.apply_turn_template("hi", true), Some(vec![1, b'h' as u32, b'i' as u32]));
    assert_eq!(t.apply_turn_template("", true), None);
    assert_eq!(t.apply_system_template(""), Some(Vec::<u32>::new()));
    assert_eq!(t.apply_system_template("s"), Some(vec![b's' as u32]));
    assert_eq!(t.encode_wrap_n_header("hi", "x", true), vec![1, b'h' as u32, b'i' as u32]);
    assert_eq!(t.encode_wrap_n_header("", "x", false), Vec::<u32>::new());
}

/// Vocabulary entries and merge rules that make each word one token, the
/// word itself coming first.
fn word_chains(words: &[&str]) -> (Vec<String>, Vec<String>) {
    let mut tokens = Vec::new();
    let mut merges = Vec::new();
    for w in words {
        tokens.push(w.to_string());
    }
    for w in words {
        let chars: Vec<char> = w.chars().collect();
        for k in 2..=chars.len() {
            let prefix: String = chars[..k - 1].iter().collect();
            let whole: String = chars[..k].iter().collect();
            if k < chars.len() {
                tokens.push(whole);
            }
            merges.push(format!("{} {}", prefix, chars[k - 1]));
        }
    }
    (tokens, merges)
}

fn llama_sized() -> Tokenizer {
    let (words, merges) = word_chains(&["user", "assistant", "system"]);
    let extra: Vec<&str> = words.iter().map(|s| s.as_str()).collect();
    let mut v = byte_vocab(&extra);
    while v.len() < 128256 {
        v.push(format!("<|reserved_{}|>", v.len()));
    }
    Tokenizer::from_gguf_parts(v, merges, 128000, 128009, "default".into(), true, false)
}

#[test]
fn llama_headers_wrap_turns() {
    let t = llama_sized();
    assert!(t.has_llama_tokens());
    let user = 256;
    let assistant = 257;
    let system = 258;
    assert_eq!(
        t.encode_wrap_n_header("ok", "system", true),
        vec![BEGIN_OF_TEXT, START_HEADER, system, END_HEADER, HEADER_SEP, b'o' as u32, b'k' as u32, HEADER_SEP, EOT]
    );
    assert_eq!(
        t.apply_turn_template("ok", true).unwrap(),
        vec![
            START_HEADER, user, END_HEADER, HEADER_SEP, b'o' as u32, b'k' as u32, EOT, START_HEADER, assistant,
            END_HEADER, HEADER_SEP
        ]
    );
    assert_eq!(
        t.apply_system_template("").unwrap(),
        vec![BEGIN_OF_TEXT, START_HEADER, system, END_HEADER, HEADER_SEP, HEADER_SEP, EOT]
    );
}
