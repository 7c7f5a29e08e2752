//! A sorted index over the token texts of a vocabulary, for finding tokens by
//! their text (by the UTF-8 bytes of the text).
use vstd::prelude::*;
use vstd::utf8::*;

verus! {

// ---------------------------------------------------------------------------
// Lexicographic order on byte strings
// ---------------------------------------------------------------------------

/// `a` comes strictly before `b` in lexicographic byte order (a proper
/// prefix comes first).
pub open spec fn lex_lt(a: Seq<u8>, b: Seq<u8>) -> bool
    decreases a.len(),
{
    if a.len() == 0 {
        b.len() > 0
    } else if b.len() == 0 {
        false
    } else if a[0] != b[0] {
        a[0] < b[0]
    } else {
        lex_lt(a.drop_first(), b.drop_first())
    }
}

pub proof fn lemma_lex_irreflexive(a: Seq<u8>)
    ensures
        !lex_lt(a, a),
    decreases a.len(),
{
    if a.len() > 0 {
        lemma_lex_irreflexive(a.drop_first());
    }
}

pub proof fn lemma_lex_transitive(a: Seq<u8>, b: Seq<u8>, c: Seq<u8>)
    requires
        lex_lt(a, b),
        lex_lt(b, c),
    ensures
        lex_lt(a, c),
    decreases a.len(),
{
    if a.len() > 0 && b.len() > 0 && c.len() > 0 {
        if a[0] == b[0] && b[0] == c[0] {
            lemma_lex_transitive(a.drop_first(), b.drop_first(), c.drop_first());
        }
    }
}

pub proof fn lemma_lex_total(a: Seq<u8>, b: Seq<u8>)
    ensures
        a == b || lex_lt(a, b) || lex_lt(b, a),
    decreases a.len(),
{
    if a.len() > 0 && b.len() > 0 && a[0] == b[0] {
        lemma_lex_total(a.drop_first(), b.drop_first());
        if a.drop_first() == b.drop_first() {
            assert(a =~= seq![a[0]] + a.drop_first());
            assert(b =~= seq![b[0]] + b.drop_first());
        }
    } else if a.len() == 0 && b.len() == 0 {
        assert(a =~= b);
    }
}

pub proof fn lemma_lex_asymmetric(a: Seq<u8>, b: Seq<u8>)
    requires
        lex_lt(a, b),
    ensures
        !lex_lt(b, a),
{
    if lex_lt(b, a) {
        lemma_lex_transitive(a, b, a);
        lemma_lex_irreflexive(a);
    }
}

/// Result of comparing two byte strings.
#[derive(Debug, Clone, Copy, PartialEq, Eq, Structural)]
pub enum LexOrder {
    Less,
    Equal,
    Greater,
}

/// Compares two byte strings lexicographically.
pub fn lex_compare(a: &[u8], b: &[u8]) -> (r: LexOrder)
    ensures
        r == LexOrder::Less <==> lex_lt(a@, b@),
        r == LexOrder::Equal <==> a@ == b@,
        r == LexOrder::Greater <==> lex_lt(b@, a@),
{
    let mut i: usize = 0;
    assert(a@.skip(0) =~= a@);
    assert(b@.skip(0) =~= b@);
    while i < a.len() && i < b.len()
        invariant
            i <= a@.len(),
            i <= b@.len(),
            a@.subrange(0, i as int) == b@.subrange(0, i as int),
            lex_lt(a@, b@) == lex_lt(a@.skip(i as int), b@.skip(i as int)),
            lex_lt(b@, a@) == lex_lt(b@.skip(i as int), a@.skip(i as int)),
        decreases a@.len() - i,
    {
        if a[i] != b[i] {
            proof {
                if a[i as int] < b[i as int] {
                    lemma_lex_asymmetric(a@, b@);
                } else {
                    lemma_lex_asymmetric(b@, a@);
                }
            }
            if a[i] < b[i] {
                return LexOrder::Less;
            } else {
                return LexOrder::Greater;
            }
        }
        assert(a@.skip(i as int).drop_first() =~= a@.skip(i + 1));
        assert(b@.skip(i as int).drop_first() =~= b@.skip(i + 1));
        assert(a@.subrange(0, i + 1) =~= a@.subrange(0, i as int).push(a@[i as int]));
        assert(b@.subrange(0, i + 1) =~= b@.subrange(0, i as int).push(b@[i as int]));
        i = i + 1;
    }
    if i == a.len() && i == b.len() {
        assert(a@ =~= a@.subrange(0, i as int));
        assert(b@ =~= b@.subrange(0, i as int));
        proof {
            lemma_lex_irreflexive(a@);
        }
        LexOrder::Equal
    } else if i == a.len() {
        assert(a@.len() != b@.len());
        LexOrder::Less
    } else {
        assert(a@.len() != b@.len());
        LexOrder::Greater
    }
}

// ---------------------------------------------------------------------------
// Order on token ids
// ---------------------------------------------------------------------------

/// The UTF-8 bytes of the text of token `id`.
pub open spec fn text_bytes(vocab: Seq<Seq<char>>, id: int) -> Seq<u8> {
    encode_utf8(vocab[id])
}

/// Token `i` comes before token `j`: by text bytes, then by id.
pub open spec fn id_lt(vocab: Seq<Seq<char>>, i: int, j: int) -> bool {
    lex_lt(text_bytes(vocab, i), text_bytes(vocab, j)) || (text_bytes(vocab, i) == text_bytes(vocab, j)
        && i < j)
}

/// `s` lists token ids in strictly increasing order.
pub open spec fn sorted_ids(vocab: Seq<Seq<char>>, s: Seq<u32>) -> bool {
    forall|p: int, q: int| 0 <= p < q < s.len() ==> id_lt(vocab, #[trigger] s[p] as int, #[trigger] s[q] as int)
}

/// `s` lists exactly the ids of the vocabulary, in increasing order.
pub open spec fn is_index_of(vocab: Seq<Seq<char>>, s: Seq<u32>) -> bool {
    &&& vocab.len() <= u32::MAX
    &&& s.len() == vocab.len()
    &&& sorted_ids(vocab, s)
    &&& forall|p: int| 0 <= p < s.len() ==> (#[trigger] s[p]) < vocab.len()
    &&& forall|k: u32| k < vocab.len() ==> #[trigger] s.contains(k)
}

/// The views of a list of strings.
pub open spec fn views(v: Seq<String>) -> Seq<Seq<char>> {
    v.map_values(|s: String| s@)
}

/// Merges two sorted id lists.
fn merge(vocab: &Vec<String>, left: Vec<u32>, right: Vec<u32>) -> (r: Vec<u32>)
    requires
        sorted_ids(views(vocab@), left@),
        sorted_ids(views(vocab@), right@),
        forall|p: int| 0 <= p < left@.len() ==> (#[trigger] left@[p]) < vocab@.len(),
        forall|p: int| 0 <= p < right@.len() ==> (#[trigger] right@[p]) < vocab@.len(),
        forall|p: int, q: int| 0 <= p < left@.len() && 0 <= q < right@.len() ==> #[trigger] left@[p] != #[trigger] right@[q],
    ensures
        sorted_ids(views(vocab@), r@),
        r@.len() == left@.len() + right@.len(),
        forall|p: int| 0 <= p < r@.len() ==> left@.contains(#[trigger] r@[p]) || right@.contains(r@[p]),
        forall|p: int| 0 <= p < left@.len() ==> r@.contains(#[trigger] left@[p]),
        forall|p: int| 0 <= p < right@.len() ==> r@.contains(#[trigger] right@[p]),
{
    let ghost v = views(vocab@);
    let mut out: Vec<u32> = Vec::new();
    let mut i: usize = 0;
    let mut j: usize = 0;
    while i < left.len() || j < right.len()
        invariant
            v == views(vocab@),
            v.len() == vocab@.len(),
            i <= left@.len(),
            j <= right@.len(),
            out@.len() == i + j,
            sorted_ids(v, left@),
            sorted_ids(v, right@),
            sorted_ids(v, out@),
            forall|p: int| 0 <= p < left@.len() ==> (#[trigger] left@[p]) < vocab@.len(),
            forall|p: int| 0 <= p < right@.len() ==> (#[trigger] right@[p]) < vocab@.len(),
            forall|p: int, q: int| 0 <= p < left@.len() && 0 <= q < right@.len() ==> #[trigger] left@[p] != #[trigger] right@[q],
            forall|p: int, q: int| 0 <= p < out@.len() && i <= q < left@.len() ==> id_lt(v, #[trigger] out@[p] as int, #[trigger] left@[q] as int),
            forall|p: int, q: int| 0 <= p < out@.len() && j <= q < right@.len() ==> id_lt(v, #[trigger] out@[p] as int, #[trigger] right@[q] as int),
            forall|p: int| 0 <= p < out@.len() ==> left@.contains(#[trigger] out@[p]) || right@.contains(out@[p]),
            forall|p: int| 0 <= p < i ==> out@.contains(#[trigger] left@[p]),
            forall|p: int| 0 <= p < j ==> out@.contains(#[trigger] right@[p]),
        decreases left@.len() + right@.len() - i - j,
    {
        let take_left = if i == left.len() {
            false
        } else if j == right.len() {
            true
        } else {
            let a = left[i];
            let b = right[j];
            match lex_compare(vocab[a as usize].as_str().as_bytes(), vocab[b as usize].as_str().as_bytes()) {
                LexOrder::Less => true,
                LexOrder::Greater => false,
                LexOrder::Equal => a < b,
            }
        };
        let ghost old_out = out@;
        if take_left {
            let x = left[i];
            proof {
                if j < right@.len() {
                    let b = right@[j as int];
                    lemma_lex_total(text_bytes(v, x as int), text_bytes(v, b as int));
                    assert(id_lt(v, x as int, b as int));
                }
                assert forall|q: int| j <= q < right@.len() implies id_lt(v, x as int, #[trigger] right@[q] as int) by {
                    if q > j {
                        lemma_id_lt_transitive(v, x as int, right@[j as int] as int, right@[q] as int);
                    }
                }
            }
            out.push(x);
            proof {
                assert forall|q: int| i + 1 <= q < left@.len() implies id_lt(v, x as int, #[trigger] left@[q] as int) by {
                    assert(id_lt(v, left@[i as int] as int, left@[q] as int));
                }
                assert forall|p: int| 0 <= p < i + 1 implies out@.contains(#[trigger] left@[p]) by {
                    if p < i {
                        let w = choose|w: int| 0 <= w < old_out.len() && old_out[w] == left@[p];
                        assert(out@[w] == left@[p]);
                    } else {
                        assert(out@[old_out.len() as int] == left@[p]);
                    }
                }
                assert forall|p: int| 0 <= p < j implies out@.contains(#[trigger] right@[p]) by {
                    let w = choose|w: int| 0 <= w < old_out.len() && old_out[w] == right@[p];
                    assert(out@[w] == right@[p]);
                }
                assert(left@.contains(left@[i as int]));
            }
            i = i + 1;
        } else {
            let x = right[j];
            proof {
                if i < left@.len() {
                    let a = left@[i as int];
                    lemma_lex_total(text_bytes(v, a as int), text_bytes(v, x as int));
                    assert(a != x);
                    assert(id_lt(v, x as int, a as int));
                }
                assert forall|q: int| i <= q < left@.len() implies id_lt(v, x as int, #[trigger] left@[q] as int) by {
                    if q > i {
                        lemma_id_lt_transitive(v, x as int, left@[i as int] as int, left@[q] as int);
                    }
                }
            }
            out.push(x);
            proof {
                assert forall|q: int| j + 1 <= q < right@.len() implies id_lt(v, x as int, #[trigger] right@[q] as int) by {
                    assert(id_lt(v, right@[j as int] as int, right@[q] as int));
                }
                assert forall|p: int| 0 <= p < j + 1 implies out@.contains(#[trigger] right@[p]) by {
                    if p < j {
                        let w = choose|w: int| 0 <= w < old_out.len() && old_out[w] == right@[p];
                        assert(out@[w] == right@[p]);
                    } else {
                        assert(out@[old_out.len() as int] == right@[p]);
                    }
                }
                assert forall|p: int| 0 <= p < i implies out@.contains(#[trigger] left@[p]) by {
                    let w = choose|w: int| 0 <= w < old_out.len() && old_out[w] == left@[p];
                    assert(out@[w] == left@[p]);
                }
                assert(right@.contains(right@[j as int]));
            }
            j = j + 1;
        }
    }
    out
}

pub proof fn lemma_id_lt_transitive(v: Seq<Seq<char>>, a: int, b: int, c: int)
    requires
        id_lt(v, a, b),
        id_lt(v, b, c),
    ensures
        id_lt(v, a, c),
{
    if lex_lt(text_bytes(v, a), text_bytes(v, b)) && lex_lt(text_bytes(v, b), text_bytes(v, c)) {
        lemma_lex_transitive(text_bytes(v, a), text_bytes(v, b), text_bytes(v, c));
    }
}

/// The ids `lo..hi` in increasing order.
fn sort_range(vocab: &Vec<String>, lo: usize, hi: usize) -> (r: Vec<u32>)
    requires
        lo <= hi <= vocab@.len() <= u32::MAX,
    ensures
        sorted_ids(views(vocab@), r@),
        r@.len() == hi - lo,
        forall|p: int| 0 <= p < r@.len() ==> lo <= #[trigger] r@[p] < hi,
        forall|k: u32| lo <= k < hi ==> #[trigger] r@.contains(k),
    decreases hi - lo,
{
    if hi - lo <= 1 {
        let mut r: Vec<u32> = Vec::new();
        if hi > lo {
            r.push(lo as u32);
            assert(r@[0] == lo as u32);
        }
        return r;
    }
    let mid = lo + (hi - lo) / 2;
    let left = sort_range(vocab, lo, mid);
    let right = sort_range(vocab, mid, hi);
    let r = merge(vocab, left, right);
    proof {
        assert forall|p: int| 0 <= p < r@.len() implies lo <= #[trigger] r@[p] < hi by {
            if left@.contains(r@[p]) {
                let w = choose|w: int| 0 <= w < left@.len() && left@[w] == r@[p];
                assert(lo <= left@[w] < mid);
            } else {
                let w = choose|w: int| 0 <= w < right@.len() && right@[w] == r@[p];
                assert(mid <= right@[w] < hi);
            }
        }
        assert forall|k: u32| lo <= k < hi implies #[trigger] r@.contains(k) by {
            if k < mid {
                assert(left@.contains(k));
                let w = choose|w: int| 0 <= w < left@.len() && left@[w] == k;
                assert(r@.contains(left@[w]));
            } else {
                assert(right@.contains(k));
                let w = choose|w: int| 0 <= w < right@.len() && right@[w] == k;
                assert(r@.contains(right@[w]));
            }
        }
    }
    r
}

/// Builds the sorted index of a vocabulary: its ids ordered by text bytes,
/// then by id.
pub fn build_index(vocab: &Vec<String>) -> (r: Vec<u32>)
    requires
        vocab@.len() <= u32::MAX,
    ensures
        is_index_of(views(vocab@), r@),
{
    sort_range(vocab, 0, vocab.len())
}

// ---------------------------------------------------------------------------
// Finding tokens by text
// ---------------------------------------------------------------------------

/// The first id at or after `i` whose text bytes are `q`.
pub open spec fn first_from(v: Seq<Seq<char>>, q: Seq<u8>, i: int) -> Option<int>
    decreases v.len() - i,
{
    if i < 0 || i >= v.len() {
        None
    } else if text_bytes(v, i) == q {
        Some(i)
    } else {
        first_from(v, q, i + 1)
    }
}

/// The last id before `i` whose text bytes are `q`.
pub open spec fn last_before(v: Seq<Seq<char>>, q: Seq<u8>, i: int) -> Option<int>
    decreases i,
{
    if i <= 0 || i > v.len() {
        None
    } else if text_bytes(v, i - 1) == q {
        Some(i - 1)
    } else {
        last_before(v, q, i - 1)
    }
}

/// The lowest id whose text has the UTF-8 bytes `q`.
pub open spec fn spec_find_first(v: Seq<Seq<char>>, q: Seq<u8>) -> Option<int> {
    first_from(v, q, 0)
}

/// The highest id whose text has the UTF-8 bytes `q`.
pub open spec fn spec_find_last(v: Seq<Seq<char>>, q: Seq<u8>) -> Option<int> {
    last_before(v, q, v.len() as int)
}

pub proof fn lemma_first_from(v: Seq<Seq<char>>, q: Seq<u8>, i: int)
    requires
        0 <= i <= v.len(),
    ensures
        first_from(v, q, i) matches Some(k) ==> i <= k < v.len() && text_bytes(v, k) == q && forall|j: int|
            i <= j < k ==> text_bytes(v, j) != q,
        first_from(v, q, i) is None ==> forall|j: int| i <= j < v.len() ==> text_bytes(v, j) != q,
    decreases v.len() - i,
{
    if i < v.len() && text_bytes(v, i) != q {
        lemma_first_from(v, q, i + 1);
    }
}

pub proof fn lemma_last_before(v: Seq<Seq<char>>, q: Seq<u8>, i: int)
    requires
        0 <= i <= v.len(),
    ensures
        last_before(v, q, i) matches Some(k) ==> 0 <= k < i && text_bytes(v, k) == q && forall|j: int|
            k < j < i ==> text_bytes(v, j) != q,
        last_before(v, q, i) is None ==> forall|j: int| 0 <= j < i ==> text_bytes(v, j) != q,
    decreases i,
{
    if i > 0 && text_bytes(v, i - 1) != q {
        lemma_last_before(v, q, i - 1);
    }
}

/// The id found for `q`, as a token id.
pub open spec fn as_token(r: Option<int>) -> Option<u32> {
    match r {
        Some(k) => Some(k as u32),
        None => None,
    }
}

/// Finds the lowest id whose text has the UTF-8 bytes `q`.
pub fn find_first(vocab: &Vec<String>, index: &Vec<u32>, q: &[u8]) -> (r: Option<u32>)
    requires
        is_index_of(views(vocab@), index@),
    ensures
        r == as_token(spec_find_first(views(vocab@), q@)),
{
    let ghost v = views(vocab@);
    let n = index.len();
    let mut lo: usize = 0;
    let mut hi: usize = n;
    while lo < hi
        invariant
            v == views(vocab@),
            v.len() == vocab@.len(),
            is_index_of(v, index@),
            n == index@.len(),
            lo <= hi <= n,
            forall|p: int| 0 <= p < lo ==> lex_lt(text_bytes(v, #[trigger] index@[p] as int), q@),
            forall|p: int| hi <= p < n ==> !lex_lt(text_bytes(v, #[trigger] index@[p] as int), q@),
        decreases hi - lo,
    {
        let mid = lo + (hi - lo) / 2;
        let id = index[mid];
        let below = match lex_compare(vocab[id as usize].as_str().as_bytes(), q) {
            LexOrder::Less => true,
            _ => false,
        };
        if below {
            proof {
                assert forall|p: int| 0 <= p < mid + 1 implies lex_lt(text_bytes(v, #[trigger] index@[p] as int), q@) by {
                    if p < mid {
                        let tp = text_bytes(v, index@[p] as int);
                        let tm = text_bytes(v, id as int);
                        assert(id_lt(v, index@[p] as int, index@[mid as int] as int));
                        if lex_lt(tp, tm) {
                            lemma_lex_transitive(tp, tm, q@);
                        }
                    }
                }
            }
            lo = mid + 1;
        } else {
            proof {
                assert forall|p: int| mid <= p < n implies !lex_lt(text_bytes(v, #[trigger] index@[p] as int), q@) by {
                    if p > mid {
                        let tp = text_bytes(v, index@[p] as int);
                        let tm = text_bytes(v, id as int);
                        assert(id_lt(v, index@[mid as int] as int, index@[p] as int));
                        if lex_lt(tp, q@) && lex_lt(tm, tp) {
                            lemma_lex_transitive(tm, tp, q@);
                        }
                    }
                }
            }
            hi = mid;
        }
    }
    proof {
        lemma_first_from(v, q@, 0);
    }
    if lo < n {
        let id = index[lo];
        if let LexOrder::Equal = lex_compare(vocab[id as usize].as_str().as_bytes(), q) {
            proof {
                // no lower id has this text
                assert forall|j: int| 0 <= j < id implies text_bytes(v, j) != q@ by {
                    if text_bytes(v, j) == q@ {
                        assert(index@.contains(j as u32));
                        let w = choose|w: int| 0 <= w < index@.len() && index@[w] == j as u32;
                        lemma_lex_irreflexive(q@);
                        if w < lo {
                        } else if w > lo {
                            assert(id_lt(v, index@[lo as int] as int, index@[w] as int));
                        }
                    }
                }
                if spec_find_first(v, q@) != Some(id as int) {
                    let k = spec_find_first(v, q@)->0;
                    if k > id {
                        assert(text_bytes(v, id as int) != q@);
                    }
                }
            }
            return Some(id);
        }
    }
    proof {
        assert forall|j: int| 0 <= j < v.len() implies text_bytes(v, j) != q@ by {
            if text_bytes(v, j) == q@ {
                assert(index@.contains(j as u32));
                let w = choose|w: int| 0 <= w < index@.len() && index@[w] == j as u32;
                lemma_lex_irreflexive(q@);
                if w > lo {
                    let tl = text_bytes(v, index@[lo as int] as int);
                    assert(id_lt(v, index@[lo as int] as int, index@[w] as int));
                    lemma_lex_total(tl, q@);
                } else if w == lo {
                }
            }
        }
        if spec_find_first(v, q@) is Some {
            let k = spec_find_first(v, q@)->0;
            assert(text_bytes(v, k) == q@);
        }
    }
    None
}

/// Finds the highest id whose text has the UTF-8 bytes `q`.
pub fn find_last(vocab: &Vec<String>, index: &Vec<u32>, q: &[u8]) -> (r: Option<u32>)
    requires
        is_index_of(views(vocab@), index@),
    ensures
        r == as_token(spec_find_last(views(vocab@), q@)),
{
    let ghost v = views(vocab@);
    let n = index.len();
    let mut lo: usize = 0;
    let mut hi: usize = n;
    while lo < hi
        invariant
            v == views(vocab@),
            v.len() == vocab@.len(),
            is_index_of(v, index@),
            n == index@.len(),
            lo <= hi <= n,
            forall|p: int| 0 <= p < lo ==> !lex_lt(q@, text_bytes(v, #[trigger] index@[p] as int)),
            forall|p: int| hi <= p < n ==> lex_lt(q@, text_bytes(v, #[trigger] index@[p] as int)),
        decreases hi - lo,
    {
        let mid = lo + (hi - lo) / 2;
        let id = index[mid];
        let above = match lex_compare(q, vocab[id as usize].as_str().as_bytes()) {
            LexOrder::Less => true,
            _ => false,
        };
        if above {
            proof {
                assert forall|p: int| mid <= p < n implies lex_lt(q@, text_bytes(v, #[trigger] index@[p] as int)) by {
                    if p > mid {
                        let tp = text_bytes(v, index@[p] as int);
                        let tm = text_bytes(v, id as int);
                        assert(id_lt(v, index@[mid as int] as int, index@[p] as int));
                        if lex_lt(tm, tp) {
                            lemma_lex_transitive(q@, tm, tp);
                        }
                    }
                }
            }
            hi = mid;
        } else {
            proof {
                assert forall|p: int| 0 <= p < mid + 1 implies !lex_lt(q@, text_bytes(v, #[trigger] index@[p] as int)) by {
                    if p < mid {
                        let tp = text_bytes(v, index@[p] as int);
                        let tm = text_bytes(v, id as int);
                        assert(id_lt(v, index@[p] as int, index@[mid as int] as int));
                        if lex_lt(q@, tp) && lex_lt(tp, tm) {
                            lemma_lex_transitive(q@, tp, tm);
                        }
                    }
                }
            }
            lo = mid + 1;
        }
    }
    proof {
        lemma_last_before(v, q@, v.len() as int);
    }
    if lo > 0 {
        let id = index[lo - 1];
        if let LexOrder::Equal = lex_compare(vocab[id as usize].as_str().as_bytes(), q) {
            proof {
                assert forall|j: int| id < j < v.len() implies text_bytes(v, j) != q@ by {
                    if text_bytes(v, j) == q@ {
                        assert(index@.contains(j as u32));
                        let w = choose|w: int| 0 <= w < index@.len() && index@[w] == j as u32;
                        lemma_lex_irreflexive(q@);
                        if w < lo - 1 {
                            assert(id_lt(v, index@[w] as int, index@[lo - 1] as int));
                        }
                    }
                }
                if spec_find_last(v, q@) != Some(id as int) {
                    let k = spec_find_last(v, q@)->0;
                    if k < id {
                        assert(text_bytes(v, id as int) != q@);
                    }
                }
            }
            return Some(id);
        }
    }
    proof {
        assert forall|j: int| 0 <= j < v.len() implies text_bytes(v, j) != q@ by {
            if text_bytes(v, j) == q@ {
                assert(index@.contains(j as u32));
                let w = choose|w: int| 0 <= w < index@.len() && index@[w] == j as u32;
                lemma_lex_irreflexive(q@);
                if w < lo - 1 {
                    let tl = text_bytes(v, index@[lo - 1] as int);
                    assert(id_lt(v, index@[w] as int, index@[lo - 1] as int));
                    lemma_lex_total(tl, q@);
                }
            }
        }
        if spec_find_last(v, q@) is Some {
            let k = spec_find_last(v, q@)->0;
            assert(text_bytes(v, k) == q@);
        }
    }
    None
}

} // verus!
