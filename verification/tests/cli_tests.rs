//! The console's command line.

use yallma3_llm::cli::{
    flag_value, has_flag, keep_generating, matches_ignore_ascii_case, max_ctx_len_arg, max_generation,
    max_tokens_arg, model_type_arg, parse_unsigned, stopped_at_limit, validate_args, ModelTypeArg,
};
use yallma3_llm::WeightFormat;

fn args(a: &[&str]) -> Vec<String> {
    a.iter().map(|s| s.to_string()).collect()
}

#[test]
fn unknown_options_are_listed() {
    let a = args(&["prog", "--model_path", "m.gguf", "--bogus", "-x", "---weird", "--threads", "4", "--", "--help"]);
    assert_eq!(validate_args(&a), vec!["--bogus".to_string(), "--".to_string()]);
    assert!(validate_args(&args(&["prog", "--max-tokens", "3"])).is_empty());
}

#[test]
fn option_values() {
    let a = args(&["p", "--max_ctx_len", "0", "--max-tokens", "200", "--model_path"]);
    assert_eq!(max_ctx_len_arg(&a), u32::MAX);
    assert_eq!(max_tokens_arg(&a), 200);
    assert_eq!(flag_value(&a, "--model_path"), None);
    assert!(has_flag(&a, "--model_path"));
    assert!(!has_flag(&a, "--help"));
    assert_eq!(max_ctx_len_arg(&args(&["p"])), 4096);
    assert_eq!(max_ctx_len_arg(&args(&["p", "--max_ctx_len", "8192"])), 8192);
    assert_eq!(max_ctx_len_arg(&args(&["p", "--max_ctx_len", "-1"])), 4096);
    assert_eq!(max_tokens_arg(&args(&["p", "--max-tokens", "4294967296"])), 0);
    assert_eq!(flag_value(&args(&["p", "--x", "1", "--x", "2"]), "--x").map(|s| s.as_str()), Some("1"));
}

#[test]
fn unsigned_numbers() {
    assert_eq!(parse_unsigned("0", 10), Some(0));
    assert_eq!(parse_unsigned("+7", 10), Some(7));
    assert_eq!(parse_unsigned("10", 10), Some(10));
    assert_eq!(parse_unsigned("11", 10), None);
    assert_eq!(parse_unsigned("", 10), None);
    assert_eq!(parse_unsigned("+", 10), None);
    assert_eq!(parse_unsigned("1 ", 10), None);
    assert_eq!(parse_unsigned("18446744073709551615", u64::MAX), Some(u64::MAX));
    assert_eq!(parse_unsigned("18446744073709551616", u64::MAX), None);
    assert_eq!(parse_unsigned("٣", 10), None);
}

#[test]
fn model_type_names() {
    assert_eq!(model_type_arg(&args(&["p"])), ModelTypeArg::Absent);
    assert_eq!(model_type_arg(&args(&["p", "--model-type", "Q8_0"])), ModelTypeArg::Format(WeightFormat::Q8_0));
    assert_eq!(model_type_arg(&args(&["p", "--model-type", "q4_0"])), ModelTypeArg::Format(WeightFormat::Q4_0));
    assert_eq!(model_type_arg(&args(&["p", "--model-type", "F16"])), ModelTypeArg::Format(WeightFormat::F16));
    assert_eq!(model_type_arg(&args(&["p", "--model-type", "q5"])), ModelTypeArg::Unknown("q5".to_string()));
    assert!(matches_ignore_ascii_case("AbC", "abc"));
    assert!(!matches_ignore_ascii_case("abcd", "abc"));
}

#[test]
fn generation_limits() {
    assert_eq!(max_generation(0), u32::MAX);
    assert_eq!(max_generation(5), 5);
    assert!(keep_generating(7, 2, 10, 100, 0, 5));
    assert!(!keep_generating(2, 2, 10, 100, 0, 5));
    assert!(!keep_generating(7, 2, 100, 100, 0, 5));
    assert!(!keep_generating(7, 2, 10, 100, 5, 5));
    assert!(stopped_at_limit(5, 5, 5));
    assert!(!stopped_at_limit(5, 5, 0));
}
