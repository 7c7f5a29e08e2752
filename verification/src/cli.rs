//! The command line of the inference console: which arguments it knows, how
//! option values are read, and when generation stops.
use vstd::prelude::*;

use crate::gguf::string_is;
use crate::vocab_index::views;
use crate::weight_type::WeightFormat;

verus! {

// ---------------------------------------------------------------------------
// Known arguments
// ---------------------------------------------------------------------------

/// The options the console understands.
pub open spec fn known_option(a: Seq<char>) -> bool {
    a == "--model_path"@ || a == "--model-type"@ || a == "--threads"@ || a == "--parallelism"@ || a
        == "--no-parallel"@ || a == "--sequential"@ || a == "--max_ctx_len"@ || a == "--max-tokens"@ || a
        == "--help"@
}

/// An argument that looks like an option: it starts with exactly two dashes.
pub open spec fn option_like(a: Seq<char>) -> bool {
    a.len() >= 2 && a[0] == '-' && a[1] == '-' && !(a.len() >= 3 && a[2] == '-')
}

/// The option-like arguments that are not known options, in order.
pub open spec fn spec_unknown_args(args: Seq<Seq<char>>) -> Seq<Seq<char>>
    decreases args.len(),
{
    if args.len() == 0 {
        Seq::empty()
    } else {
        let prev = spec_unknown_args(args.drop_last());
        if option_like(args.last()) && !known_option(args.last()) {
            prev.push(args.last())
        } else {
            prev
        }
    }
}

fn is_known_option(a: &String) -> (r: bool)
    ensures
        r == known_option(a@),
{
    string_is(a, "--model_path") || string_is(a, "--model-type") || string_is(a, "--threads") || string_is(
        a,
        "--parallelism",
    ) || string_is(a, "--no-parallel") || string_is(a, "--sequential") || string_is(a, "--max_ctx_len")
        || string_is(a, "--max-tokens") || string_is(a, "--help")
}

fn is_option_like(a: &String) -> (r: bool)
    ensures
        r == option_like(a@),
{
    let s = a.as_str();
    let n = s.unicode_len();
    if n < 2 {
        return false;
    }
    if s.get_char(0) != '-' || s.get_char(1) != '-' {
        return false;
    }
    !(n >= 3 && s.get_char(2) == '-')
}

/// The arguments that start with exactly two dashes but are not options
/// the console knows, in order.
pub fn validate_args(args: &[String]) -> (r: Vec<String>)
    ensures
        views(r@) == spec_unknown_args(views(args@)),
{
    let mut unknown: Vec<String> = Vec::new();
    let mut i: usize = 0;
    while i < args.len()
        invariant
            i <= args@.len(),
            views(unknown@) == spec_unknown_args(views(args@.subrange(0, i as int))),
        decreases args@.len() - i,
    {
        let ghost before = unknown@;
        assert(views(args@.subrange(0, i + 1)).drop_last() =~= views(args@.subrange(0, i as int)));
        assert(views(args@.subrange(0, i + 1)).last() == args@[i as int]@);
        if is_option_like(&args[i]) && !is_known_option(&args[i]) {
            unknown.push(args[i].clone());
            assert(views(unknown@) =~= views(before).push(args@[i as int]@));
        }
        i = i + 1;
    }
    assert(args@.subrange(0, i as int) =~= args@);
    unknown
}

// ---------------------------------------------------------------------------
// Option values
// ---------------------------------------------------------------------------

/// The position of the first argument equal to `flag`.
pub open spec fn first_position(args: Seq<Seq<char>>, flag: Seq<char>, i: int) -> Option<int>
    decreases args.len() - i,
{
    if i < 0 || i >= args.len() {
        None
    } else if args[i] == flag {
        Some(i)
    } else {
        first_position(args, flag, i + 1)
    }
}

/// The argument after the first occurrence of `flag`, if there is one.
pub open spec fn spec_flag_value(args: Seq<Seq<char>>, flag: Seq<char>) -> Option<Seq<char>> {
    match first_position(args, flag, 0) {
        Some(p) => if p + 1 < args.len() {
            Some(args[p + 1])
        } else {
            None
        },
        None => None,
    }
}

/// Whether `flag` is among the arguments.
pub open spec fn spec_has_flag(args: Seq<Seq<char>>, flag: Seq<char>) -> bool {
    first_position(args, flag, 0) is Some
}

proof fn lemma_first_position(args: Seq<Seq<char>>, flag: Seq<char>, i: int)
    requires
        0 <= i <= args.len(),
    ensures
        first_position(args, flag, i) matches Some(p) ==> i <= p < args.len() && args[p] == flag,
        first_position(args, flag, i) is None ==> forall|j: int| i <= j < args.len() ==> args[j] != flag,
    decreases args.len() - i,
{
    if i < args.len() && args[i] != flag {
        lemma_first_position(args, flag, i + 1);
    }
}

/// The position of the first argument equal to `flag`.
fn position_of(args: &[String], flag: &str) -> (r: Option<usize>)
    ensures
        match r {
            Some(p) => first_position(views(args@), flag@, 0) == Some(p as int),
            None => first_position(views(args@), flag@, 0) is None,
        },
{
    let ghost a = views(args@);
    let mut i: usize = 0;
    while i < args.len()
        invariant
            a == views(args@),
            i <= args@.len(),
            first_position(a, flag@, 0) == first_position(a, flag@, i as int),
        decreases args@.len() - i,
    {
        if string_is(&args[i], flag) {
            return Some(i);
        }
        i = i + 1;
    }
    None
}

/// Whether `flag` is among the arguments.
pub fn has_flag(args: &[String], flag: &str) -> (r: bool)
    ensures
        r == spec_has_flag(views(args@), flag@),
{
    position_of(args, flag).is_some()
}

/// The argument after the first occurrence of `flag`, if there is one.
pub fn flag_value<'a>(args: &'a [String], flag: &str) -> (r: Option<&'a String>)
    ensures
        match r {
            Some(v) => spec_flag_value(views(args@), flag@) == Some(v@),
            None => spec_flag_value(views(args@), flag@) is None,
        },
{
    proof {
        lemma_first_position(views(args@), flag@, 0);
    }
    match position_of(args, flag) {
        Some(p) => {
            if p < args.len() - 1 {
                Some(&args[p + 1])
            } else {
                None
            }
        },
        None => None,
    }
}

// ---------------------------------------------------------------------------
// Unsigned decimal numbers
// ---------------------------------------------------------------------------

/// The characters are all decimal digits.
pub open spec fn all_digits(ds: Seq<char>) -> bool {
    forall|i: int| 0 <= i < ds.len() ==> '0' <= #[trigger] ds[i] <= '9'
}

/// The value of a string of decimal digits.
pub open spec fn digits_value(ds: Seq<char>) -> nat
    decreases ds.len(),
{
    if ds.len() == 0 {
        0
    } else {
        digits_value(ds.drop_last()) * 10 + (ds.last() as nat - '0' as nat) as nat
    }
}

/// The digits of an unsigned number: the text without one leading `+`.
pub open spec fn unsigned_digits(s: Seq<char>) -> Seq<char> {
    if s.len() > 0 && s[0] == '+' {
        s.drop_first()
    } else {
        s
    }
}

/// An unsigned number as Rust's `from_str` for unsigned integers reads it:
/// an optional `+` and at least one decimal digit, with a value of at most
/// `max`.
pub open spec fn spec_parse_unsigned(s: Seq<char>, max: nat) -> Option<nat> {
    let ds = unsigned_digits(s);
    if ds.len() > 0 && all_digits(ds) && digits_value(ds) <= max {
        Some(digits_value(ds))
    } else {
        None
    }
}

proof fn lemma_digits_value_grows(ds: Seq<char>, k: int)
    requires
        0 <= k <= ds.len(),
        all_digits(ds),
    ensures
        digits_value(ds.take(k)) <= digits_value(ds),
    decreases ds.len() - k,
{
    if k < ds.len() {
        lemma_digits_value_grows(ds, k + 1);
        assert(ds.take(k + 1).drop_last() =~= ds.take(k));
        assert(ds.take(k + 1).last() == ds[k]);
    } else {
        assert(ds.take(k) =~= ds);
    }
}

/// Reads an unsigned decimal number of at most `max` (see
/// [`spec_parse_unsigned`]).
pub fn parse_unsigned(s: &str, max: u64) -> (r: Option<u64>)
    ensures
        match spec_parse_unsigned(s@, max as nat) {
            Some(v) => r == Some(v as u64),
            None => r is None,
        },
{
    let n = s.unicode_len();
    let ghost ds = unsigned_digits(s@);
    let mut i: usize = 0;
    if n > 0 && s.get_char(0) == '+' {
        i = 1;
    }
    let first = i;
    assert(ds =~= s@.skip(first as int));
    if i >= n {
        return None;
    }
    let mut acc: u128 = 0;
    while i < n
        invariant
            n == s@.len(),
            first <= i <= n,
            first < n,
            ds == s@.skip(first as int),
            ds == unsigned_digits(s@),
            all_digits(ds.take(i - first)),
            acc == digits_value(ds.take(i - first)),
            acc <= max,
        decreases n - i,
    {
        let c = s.get_char(i);
        let k = i - first;
        assert(ds[k as int] == c);
        assert(ds.take(k + 1).drop_last() =~= ds.take(k as int));
        assert(ds.take(k + 1).last() == c);
        if c < '0' || c > '9' {
            assert(!all_digits(ds));
            return None;
        }
        let d = (c as u32 - '0' as u32) as u128;
        acc = acc * 10 + d;
        assert(acc == digits_value(ds.take(k + 1)));
        assert(all_digits(ds.take(k + 1))) by {
            assert forall|j: int| 0 <= j < ds.take(k + 1).len() implies '0' <= #[trigger] ds.take(k + 1)[j]
                <= '9' by {
                if j < k {
                    assert(ds.take(k + 1)[j] == ds.take(k as int)[j]);
                }
            }
        }
        if acc > max as u128 {
            proof {
                let rest_ok = all_digits(ds);
                if rest_ok {
                    lemma_digits_value_grows(ds, k + 1);
                }
            }
            return None;
        }
        i = i + 1;
    }
    assert(ds.take(i - first) =~= ds);
    Some(acc as u64)
}

// ---------------------------------------------------------------------------
// Console options
// ---------------------------------------------------------------------------

/// The context length asked for with `--max_ctx_len`: 0 means the model's
/// own (no cap), an absent or unreadable value means 4096.
pub open spec fn spec_max_ctx_len(args: Seq<Seq<char>>) -> u32 {
    match spec_flag_value(args, "--max_ctx_len"@) {
        Some(v) => match spec_parse_unsigned(v, u32::MAX as nat) {
            Some(n) => if n == 0 {
                u32::MAX
            } else {
                n as u32
            },
            None => 4096,
        },
        None => 4096,
    }
}

/// The context length asked for on the command line (see
/// [`spec_max_ctx_len`]).
pub fn max_ctx_len_arg(args: &[String]) -> (r: u32)
    ensures
        r == spec_max_ctx_len(views(args@)),
{
    match flag_value(args, "--max_ctx_len") {
        Some(v) => match parse_unsigned(v.as_str(), 0xFFFF_FFFF) {
            Some(0) => 0xFFFF_FFFF,
            Some(n) => n as u32,
            None => 4096,
        },
        None => 4096,
    }
}

/// The generation limit asked for with `--max-tokens`; 0 (no limit) when
/// absent or unreadable.
pub open spec fn spec_max_tokens(args: Seq<Seq<char>>) -> u32 {
    match spec_flag_value(args, "--max-tokens"@) {
        Some(v) => match spec_parse_unsigned(v, u32::MAX as nat) {
            Some(n) => n as u32,
            None => 0,
        },
        None => 0,
    }
}

/// The generation limit asked for on the command line (see
/// [`spec_max_tokens`]).
pub fn max_tokens_arg(args: &[String]) -> (r: u32)
    ensures
        r == spec_max_tokens(views(args@)),
{
    match flag_value(args, "--max-tokens") {
        Some(v) => match parse_unsigned(v.as_str(), 0xFFFF_FFFF) {
            Some(n) => n as u32,
            None => 0,
        },
        None => 0,
    }
}

/// The code of a character with ASCII upper case letters turned to lower
/// case.
pub open spec fn ascii_lower(c: char) -> u32 {
    if 'A' <= c <= 'Z' {
        (c as u32 + 32) as u32
    } else {
        c as u32
    }
}

/// The texts are equal up to the case of ASCII letters.
pub open spec fn eq_ignore_ascii_case(a: Seq<char>, b: Seq<char>) -> bool {
    a.len() == b.len() && forall|i: int| 0 <= i < a.len() ==> #[trigger] ascii_lower(a[i]) == ascii_lower(b[i])
}

fn ascii_lower_exec(c: char) -> (r: u32)
    ensures
        r == ascii_lower(c),
{
    if 'A' <= c && c <= 'Z' {
        c as u32 + 32
    } else {
        c as u32
    }
}

/// Whether `a` equals the (lower case) text `lit` up to the case of ASCII
/// letters.
pub fn matches_ignore_ascii_case(a: &str, lit: &str) -> (r: bool)
    ensures
        r == eq_ignore_ascii_case(a@, lit@),
{
    let n = a.unicode_len();
    if n != lit.unicode_len() {
        return false;
    }
    let mut i: usize = 0;
    while i < n
        invariant
            n == a@.len(),
            n == lit@.len(),
            i <= n,
            forall|j: int| 0 <= j < i ==> #[trigger] ascii_lower(a@[j]) == ascii_lower(lit@[j]),
        decreases n - i,
    {
        if ascii_lower_exec(a.get_char(i)) != ascii_lower_exec(lit.get_char(i)) {
            return false;
        }
        i = i + 1;
    }
    true
}

/// What `--model-type` asks for.
#[derive(Debug, Clone, PartialEq, Eq)]
pub enum ModelTypeArg {
    /// The option is absent (or has no value).
    Absent,
    /// A known weight format.
    Format(WeightFormat),
    /// A value that names no weight format; it is ignored.
    Unknown(String),
}

/// The weight format a `--model-type` value names, ignoring the case of
/// ASCII letters: `q8_0`, `q4_0` or `f16`.
pub open spec fn spec_weight_format_named(v: Seq<char>) -> Option<WeightFormat> {
    if eq_ignore_ascii_case(v, "q8_0"@) {
        Some(WeightFormat::Q8_0)
    } else if eq_ignore_ascii_case(v, "q4_0"@) {
        Some(WeightFormat::Q4_0)
    } else if eq_ignore_ascii_case(v, "f16"@) {
        Some(WeightFormat::F16)
    } else {
        None
    }
}

/// What `--model-type` asks for (see [`spec_weight_format_named`]).
pub fn model_type_arg(args: &[String]) -> (r: ModelTypeArg)
    ensures
        match spec_flag_value(views(args@), "--model-type"@) {
            None => r == ModelTypeArg::Absent,
            Some(v) => match spec_weight_format_named(v) {
                Some(f) => r == ModelTypeArg::Format(f),
                None => r matches ModelTypeArg::Unknown(s) && s@ == v,
            },
        },
{
    match flag_value(args, "--model-type") {
        None => ModelTypeArg::Absent,
        Some(v) => {
            let s = v.as_str();
            if matches_ignore_ascii_case(s, "q8_0") {
                ModelTypeArg::Format(WeightFormat::Q8_0)
            } else if matches_ignore_ascii_case(s, "q4_0") {
                ModelTypeArg::Format(WeightFormat::Q4_0)
            } else if matches_ignore_ascii_case(s, "f16") {
                ModelTypeArg::Format(WeightFormat::F16)
            } else {
                ModelTypeArg::Unknown(v.clone())
            }
        },
    }
}

// ---------------------------------------------------------------------------
// Generation
// ---------------------------------------------------------------------------

/// The most tokens one answer may have: `max_tokens`, or no limit for 0.
pub open spec fn spec_max_generation(max_tokens: u32) -> u32 {
    if max_tokens > 0 {
        max_tokens
    } else {
        u32::MAX
    }
}

/// The most tokens one answer may have (see [`spec_max_generation`]).
pub fn max_generation(max_tokens: u32) -> (r: u32)
    ensures
        r == spec_max_generation(max_tokens),
{
    if max_tokens > 0 {
        max_tokens
    } else {
        0xFFFF_FFFF
    }
}

/// Generation goes on while the sampled token is not the end token, the
/// context has room and the answer is below its limit.
pub fn keep_generating(next: u32, eos: u32, pos: u32, max_ctx_len: u32, gen_count: u32, max_gen: u32) -> (r: bool)
    ensures
        r == (next != eos && pos < max_ctx_len && gen_count < max_gen),
{
    next != eos && pos < max_ctx_len && gen_count < max_gen
}

/// The answer stopped at an explicit `--max-tokens` limit.
pub fn stopped_at_limit(gen_count: u32, max_gen: u32, max_tokens: u32) -> (r: bool)
    ensures
        r == (gen_count >= max_gen && max_tokens > 0),
{
    gen_count >= max_gen && max_tokens > 0
}

} // verus!
