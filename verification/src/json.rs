//! JSON documents as the loaders read them, and the parts of a HuggingFace
//! `tokenizer.json` file.
use vstd::prelude::*;

use crate::gguf::string_is;

verus! {

/// A JSON value. A number keeps only its value as an unsigned 64-bit
/// integer (`None` for negative, fractional or larger numbers); an object
/// keeps its entries in the order the parser lists them (`serde_json` keeps
/// object keys sorted).
#[derive(Debug)]
pub enum JsonValue {
    Null,
    Bool(bool),
    Number(Option<u64>),
    Str(String),
    Array(Vec<JsonValue>),
    Object(Vec<(String, JsonValue)>),
}

#[verifier::external_type_specification]
#[verifier::external_body]
pub struct ExSerdeJsonValue(serde_json::Value);

/// What `serde_json` parses a text into, as a [`JsonValue`]; `None` when the
/// text is not a JSON document.
pub uninterp spec fn json_document(text: Seq<char>) -> Option<JsonValue>;

/// Converts a `serde_json::Value`, one variant for another, keeping the
/// array and object entries in the order `serde_json` iterates them and a
/// number's `serde_json::Number::as_u64`. Nothing is claimed of it beyond
/// what [`parse_json`] claims of the whole parse.
#[verifier::external_body]
fn json_value_of(v: &serde_json::Value) -> (r: JsonValue) {
    match v {
        serde_json::Value::Null => JsonValue::Null,
        serde_json::Value::Bool(b) => JsonValue::Bool(*b),
        serde_json::Value::Number(n) => JsonValue::Number(n.as_u64()),
        serde_json::Value::String(s) => JsonValue::Str(s.clone()),
        serde_json::Value::Array(a) => JsonValue::Array(a.iter().map(json_value_of).collect()),
        serde_json::Value::Object(o) => JsonValue::Object(
            o.iter().map(|(k, x)| (k.clone(), json_value_of(x))).collect(),
        ),
    }
}

/// Parses a text with `serde_json::from_str` into a `serde_json::Value` and
/// converts it (see [`json_value_of`]); `None` when `serde_json` reports an
/// error. The result is a function of the text alone, named
/// [`json_document`]; what it is takes the JSON grammar to say and is not
/// stated.
#[verifier::external_body]
pub(crate) fn parse_json(text: &str) -> (r: Option<JsonValue>)
    ensures
        r == json_document(text@),
{
    serde_json::from_str::<serde_json::Value>(text).ok().map(|v| json_value_of(&v))
}

/// The value of the first entry named `key` among object entries.
pub open spec fn field_of(entries: Seq<(String, JsonValue)>, key: Seq<char>) -> Option<JsonValue>
    decreases entries.len(),
{
    if entries.len() == 0 {
        None
    } else if entries[0].0@ == key {
        Some(entries[0].1)
    } else {
        field_of(entries.drop_first(), key)
    }
}

/// The field `key` of an object; `None` for other values.
pub open spec fn json_field(v: JsonValue, key: Seq<char>) -> Option<JsonValue> {
    match v {
        JsonValue::Object(entries) => field_of(entries@, key),
        _ => None,
    }
}

/// Looks up the field `key` of an object.
pub fn get_field<'a>(v: &'a JsonValue, key: &str) -> (r: Option<&'a JsonValue>)
    ensures
        match r {
            Some(x) => json_field(*v, key@) == Some(*x),
            None => json_field(*v, key@) is None,
        },
{
    match v {
        JsonValue::Object(entries) => {
            let mut i: usize = 0;
            assert(entries@.skip(0) =~= entries@);
            while i < entries.len()
                invariant
                    json_field(*v, key@) == field_of(entries@, key@),
                    i <= entries@.len(),
                    field_of(entries@, key@) == field_of(entries@.skip(i as int), key@),
                decreases entries@.len() - i,
            {
                assert(entries@.skip(i as int).drop_first() =~= entries@.skip(i + 1));
                assert(entries@.skip(i as int)[0] == entries@[i as int]);
                if string_is(&entries[i].0, key) {
                    return Some(&entries[i].1);
                }
                i = i + 1;
            }
            None
        },
        _ => None,
    }
}

// ---------------------------------------------------------------------------
// tokenizer.json
// ---------------------------------------------------------------------------

/// Why a `tokenizer.json` document was refused.
#[derive(Debug, Clone, Copy, PartialEq, Eq, Structural)]
pub enum TokenizerJsonError {
    /// The text is not JSON.
    NotJson,
    /// There is no object at `model.vocab`.
    MissingVocab,
    /// There is no array at `added_tokens`.
    MissingAddedTokens,
    /// There is no array at `model.merges`.
    MissingMerges,
    /// A token id is not an unsigned integer.
    BadTokenId,
    /// An added token has no string `content`.
    BadTokenContent,
    /// A merge rule is not a string.
    BadMerge,
    /// The ids or the merge rules do not fit 32-bit token ids.
    TooLarge,
}

/// What the tokenizer logic reads of a `tokenizer.json` document: the
/// vocabulary's (text, id) entries, the added tokens' (id, text) entries and
/// the merge rules. Arrays keep the document's order; object entries (the
/// vocabulary) come in the order the parser lists them, which for
/// `serde_json` is sorted by key.
pub struct TokenizerJsonParts {
    pub vocab: Vec<(String, u64)>,
    pub added: Vec<(u64, String)>,
    pub merges: Vec<String>,
}

/// The (text, id) entries of a list, by their texts' views.
pub open spec fn text_id_views(v: Seq<(String, u64)>) -> Seq<(Seq<char>, u64)> {
    v.map_values(|p: (String, u64)| (p.0@, p.1))
}

/// The (id, text) entries of a list, by their texts' views.
pub open spec fn id_text_views(v: Seq<(u64, String)>) -> Seq<(u64, Seq<char>)> {
    v.map_values(|p: (u64, String)| (p.0, p.1@))
}

/// The (text, id) entries of the vocabulary object; every value must be an
/// unsigned integer.
pub open spec fn spec_vocab_pairs(e: Seq<(String, JsonValue)>) -> Result<Seq<(Seq<char>, u64)>, TokenizerJsonError>
    decreases e.len(),
{
    if e.len() == 0 {
        Ok(Seq::empty())
    } else {
        match spec_vocab_pairs(e.drop_last()) {
            Err(x) => Err(x),
            Ok(p) => match e.last().1 {
                JsonValue::Number(Some(n)) => Ok(p.push((e.last().0@, n))),
                _ => Err(TokenizerJsonError::BadTokenId),
            },
        }
    }
}

/// The (id, text) of an added token: its `id` must be an unsigned integer
/// and its `content` a string.
pub open spec fn spec_added_pair(t: JsonValue) -> Result<(u64, Seq<char>), TokenizerJsonError> {
    match json_field(t, "id"@) {
        Some(JsonValue::Number(Some(n))) => match json_field(t, "content"@) {
            Some(JsonValue::Str(s)) => Ok((n, s@)),
            _ => Err(TokenizerJsonError::BadTokenContent),
        },
        _ => Err(TokenizerJsonError::BadTokenId),
    }
}

/// The (id, text) entries of the added tokens.
pub open spec fn spec_added_pairs(a: Seq<JsonValue>) -> Result<Seq<(u64, Seq<char>)>, TokenizerJsonError>
    decreases a.len(),
{
    if a.len() == 0 {
        Ok(Seq::empty())
    } else {
        match spec_added_pairs(a.drop_last()) {
            Err(x) => Err(x),
            Ok(p) => match spec_added_pair(a.last()) {
                Err(x) => Err(x),
                Ok(q) => Ok(p.push(q)),
            },
        }
    }
}

/// The merge rules; every one must be a string.
pub open spec fn spec_merge_texts(a: Seq<JsonValue>) -> Result<Seq<Seq<char>>, TokenizerJsonError>
    decreases a.len(),
{
    if a.len() == 0 {
        Ok(Seq::empty())
    } else {
        match spec_merge_texts(a.drop_last()) {
            Err(x) => Err(x),
            Ok(p) => match a.last() {
                JsonValue::Str(s) => Ok(p.push(s@)),
                _ => Err(TokenizerJsonError::BadMerge),
            },
        }
    }
}

/// The parts of a `tokenizer.json` document: the object `model.vocab`, the
/// array `added_tokens` and the array `model.merges`, checked in that order.
pub open spec fn spec_tokenizer_json(root: JsonValue) -> Result<
    (Seq<(Seq<char>, u64)>, Seq<(u64, Seq<char>)>, Seq<Seq<char>>),
    TokenizerJsonError,
> {
    match json_field(root, "model"@) {
        Some(model) => match json_field(model, "vocab"@) {
            Some(JsonValue::Object(e)) => match json_field(root, "added_tokens"@) {
                Some(JsonValue::Array(a)) => match spec_vocab_pairs(e@) {
                    Err(x) => Err(x),
                    Ok(vp) => match spec_added_pairs(a@) {
                        Err(x) => Err(x),
                        Ok(ap) => match json_field(model, "merges"@) {
                            Some(JsonValue::Array(ms)) => match spec_merge_texts(ms@) {
                                Err(x) => Err(x),
                                Ok(mt) => Ok((vp, ap, mt)),
                            },
                            _ => Err(TokenizerJsonError::MissingMerges),
                        },
                    },
                },
                _ => Err(TokenizerJsonError::MissingAddedTokens),
            },
            _ => Err(TokenizerJsonError::MissingVocab),
        },
        None => Err(TokenizerJsonError::MissingVocab),
    }
}

fn vocab_pairs(e: &Vec<(String, JsonValue)>) -> (r: Result<Vec<(String, u64)>, TokenizerJsonError>)
    ensures
        match r {
            Ok(v) => spec_vocab_pairs(e@) == Ok::<Seq<(Seq<char>, u64)>, TokenizerJsonError>(text_id_views(v@)),
            Err(x) => spec_vocab_pairs(e@) == Err::<Seq<(Seq<char>, u64)>, TokenizerJsonError>(x),
        },
{
    let mut out: Vec<(String, u64)> = Vec::new();
    let mut i: usize = 0;
    assert(e@.subrange(0, 0) =~= Seq::<(String, JsonValue)>::empty());
    assert(text_id_views(out@) =~= Seq::<(Seq<char>, u64)>::empty());
    while i < e.len()
        invariant
            i <= e@.len(),
            spec_vocab_pairs(e@.subrange(0, i as int)) == Ok::<Seq<(Seq<char>, u64)>, TokenizerJsonError>(
                text_id_views(out@),
            ),
        decreases e@.len() - i,
    {
        assert(e@.subrange(0, i + 1).drop_last() =~= e@.subrange(0, i as int));
        assert(e@.subrange(0, i + 1).last() == e@[i as int]);
        let ghost prev = out@;
        match &e[i].1 {
            JsonValue::Number(Some(n)) => {
                out.push((e[i].0.clone(), *n));
                assert(text_id_views(out@) =~= text_id_views(prev).push((e@[i as int].0@, *n)));
            },
            _ => {
                proof {
                    lemma_vocab_pairs_err_extends(e@, (i + 1) as int);
                }
                return Err(TokenizerJsonError::BadTokenId);
            },
        }
        i = i + 1;
    }
    assert(e@.subrange(0, i as int) =~= e@);
    Ok(out)
}

proof fn lemma_vocab_pairs_err_extends(e: Seq<(String, JsonValue)>, k: int)
    requires
        0 <= k <= e.len(),
        spec_vocab_pairs(e.subrange(0, k)) is Err,
    ensures
        spec_vocab_pairs(e) == spec_vocab_pairs(e.subrange(0, k)),
    decreases e.len() - k,
{
    if k < e.len() {
        assert(e.subrange(0, k + 1).drop_last() =~= e.subrange(0, k));
        lemma_vocab_pairs_err_extends(e, k + 1);
    } else {
        assert(e.subrange(0, k) =~= e);
    }
}

proof fn lemma_added_pairs_err_extends(a: Seq<JsonValue>, k: int)
    requires
        0 <= k <= a.len(),
        spec_added_pairs(a.subrange(0, k)) is Err,
    ensures
        spec_added_pairs(a) == spec_added_pairs(a.subrange(0, k)),
    decreases a.len() - k,
{
    if k < a.len() {
        assert(a.subrange(0, k + 1).drop_last() =~= a.subrange(0, k));
        lemma_added_pairs_err_extends(a, k + 1);
    } else {
        assert(a.subrange(0, k) =~= a);
    }
}

proof fn lemma_merge_texts_err_extends(a: Seq<JsonValue>, k: int)
    requires
        0 <= k <= a.len(),
        spec_merge_texts(a.subrange(0, k)) is Err,
    ensures
        spec_merge_texts(a) == spec_merge_texts(a.subrange(0, k)),
    decreases a.len() - k,
{
    if k < a.len() {
        assert(a.subrange(0, k + 1).drop_last() =~= a.subrange(0, k));
        lemma_merge_texts_err_extends(a, k + 1);
    } else {
        assert(a.subrange(0, k) =~= a);
    }
}

fn added_pairs(a: &Vec<JsonValue>) -> (r: Result<Vec<(u64, String)>, TokenizerJsonError>)
    ensures
        match r {
            Ok(v) => spec_added_pairs(a@) == Ok::<Seq<(u64, Seq<char>)>, TokenizerJsonError>(id_text_views(v@)),
            Err(x) => spec_added_pairs(a@) == Err::<Seq<(u64, Seq<char>)>, TokenizerJsonError>(x),
        },
{
    let mut out: Vec<(u64, String)> = Vec::new();
    let mut i: usize = 0;
    assert(a@.subrange(0, 0) =~= Seq::<JsonValue>::empty());
    assert(id_text_views(out@) =~= Seq::<(u64, Seq<char>)>::empty());
    while i < a.len()
        invariant
            i <= a@.len(),
            spec_added_pairs(a@.subrange(0, i as int)) == Ok::<Seq<(u64, Seq<char>)>, TokenizerJsonError>(
                id_text_views(out@),
            ),
        decreases a@.len() - i,
    {
        assert(a@.subrange(0, i + 1).drop_last() =~= a@.subrange(0, i as int));
        assert(a@.subrange(0, i + 1).last() == a@[i as int]);
        let ghost prev = out@;
        let t = &a[i];
        let id = match get_field(t, "id") {
            Some(JsonValue::Number(Some(n))) => *n,
            _ => {
                proof {
                    lemma_added_pairs_err_extends(a@, (i + 1) as int);
                }
                return Err(TokenizerJsonError::BadTokenId);
            },
        };
        let content = match get_field(t, "content") {
            Some(JsonValue::Str(s)) => s.clone(),
            _ => {
                proof {
                    lemma_added_pairs_err_extends(a@, (i + 1) as int);
                }
                return Err(TokenizerJsonError::BadTokenContent);
            },
        };
        out.push((id, content));
        assert(id_text_views(out@) =~= id_text_views(prev).push((id, content@)));
        i = i + 1;
    }
    assert(a@.subrange(0, i as int) =~= a@);
    Ok(out)
}

fn merge_texts(a: &Vec<JsonValue>) -> (r: Result<Vec<String>, TokenizerJsonError>)
    ensures
        match r {
            Ok(v) => spec_merge_texts(a@) == Ok::<Seq<Seq<char>>, TokenizerJsonError>(
                v@.map_values(|s: String| s@),
            ),
            Err(x) => spec_merge_texts(a@) == Err::<Seq<Seq<char>>, TokenizerJsonError>(x),
        },
{
    let mut out: Vec<String> = Vec::new();
    let mut i: usize = 0;
    assert(a@.subrange(0, 0) =~= Seq::<JsonValue>::empty());
    assert(out@.map_values(|s: String| s@) =~= Seq::<Seq<char>>::empty());
    while i < a.len()
        invariant
            i <= a@.len(),
            spec_merge_texts(a@.subrange(0, i as int)) == Ok::<Seq<Seq<char>>, TokenizerJsonError>(
                out@.map_values(|s: String| s@),
            ),
        decreases a@.len() - i,
    {
        assert(a@.subrange(0, i + 1).drop_last() =~= a@.subrange(0, i as int));
        assert(a@.subrange(0, i + 1).last() == a@[i as int]);
        let ghost prev = out@;
        match &a[i] {
            JsonValue::Str(s) => {
                out.push(s.clone());
                assert(out@.map_values(|s: String| s@) =~= prev.map_values(|s: String| s@).push(
                    a@[i as int]->Str_0@,
                ));
            },
            _ => {
                proof {
                    lemma_merge_texts_err_extends(a@, (i + 1) as int);
                }
                return Err(TokenizerJsonError::BadMerge);
            },
        }
        i = i + 1;
    }
    assert(a@.subrange(0, i as int) =~= a@);
    Ok(out)
}

/// Reads the vocabulary, added tokens and merge rules of a `tokenizer.json`
/// document (see [`spec_tokenizer_json`]).
pub fn tokenizer_json_parts(root: &JsonValue) -> (r: Result<TokenizerJsonParts, TokenizerJsonError>)
    ensures
        match r {
            Ok(p) => spec_tokenizer_json(*root) == Ok::<
                (Seq<(Seq<char>, u64)>, Seq<(u64, Seq<char>)>, Seq<Seq<char>>),
                TokenizerJsonError,
            >((text_id_views(p.vocab@), id_text_views(p.added@), p.merges@.map_values(|s: String| s@))),
            Err(x) => spec_tokenizer_json(*root) == Err::<
                (Seq<(Seq<char>, u64)>, Seq<(u64, Seq<char>)>, Seq<Seq<char>>),
                TokenizerJsonError,
            >(x),
        },
{
    let model = match get_field(root, "model") {
        Some(m) => m,
        None => {
            return Err(TokenizerJsonError::MissingVocab);
        },
    };
    let entries = match get_field(model, "vocab") {
        Some(JsonValue::Object(e)) => e,
        _ => {
            return Err(TokenizerJsonError::MissingVocab);
        },
    };
    let added_list = match get_field(root, "added_tokens") {
        Some(JsonValue::Array(a)) => a,
        _ => {
            return Err(TokenizerJsonError::MissingAddedTokens);
        },
    };
    let vocab = match vocab_pairs(entries) {
        Ok(v) => v,
        Err(x) => {
            return Err(x);
        },
    };
    let added = match added_pairs(added_list) {
        Ok(v) => v,
        Err(x) => {
            return Err(x);
        },
    };
    let merge_list = match get_field(model, "merges") {
        Some(JsonValue::Array(a)) => a,
        _ => {
            return Err(TokenizerJsonError::MissingMerges);
        },
    };
    let merges = match merge_texts(merge_list) {
        Ok(v) => v,
        Err(x) => {
            return Err(x);
        },
    };
    Ok(TokenizerJsonParts { vocab, added, merges })
}

} // verus!
