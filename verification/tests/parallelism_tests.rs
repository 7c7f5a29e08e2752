//! Parallelism configuration.

use yallma3_llm::cli::flag_value;
use yallma3_llm::parallelism::{
    default_threads, idle_cores, parallelism_mode, scan_parallelism_args, ParallelismConfig, ParallelismMode,
};

fn config_from(args: Vec<String>, percent_threads: Option<usize>) -> ParallelismConfig {
    let available = num_cpus::get();
    let scanned = scan_parallelism_args(&args);
    ParallelismConfig::configure(&scanned, default_threads(available), percent_threads)
}

#[test]
fn test_default_config() {
    let config = ParallelismConfig::default();
    assert!(!config.disabled);
    assert!(config.num_threads.is_some());
    let expected = ((num_cpus::get() as f64) * 0.5).ceil() as usize;
    assert_eq!(config.num_threads.unwrap(), expected.max(1));
    assert!(!config.sequential);
}

#[test]
fn test_no_parallel() {
    let args = vec![
        "inference".to_string(),
        "--model_path".to_string(),
        "model.gguf".to_string(),
        "--no-parallel".to_string(),
    ];
    let config = config_from(args, None);

    assert!(config.disabled);
    assert_eq!(config.num_threads, Some(1));
}

#[test]
fn test_threads_argument() {
    let args = vec![
        "inference".to_string(),
        "--threads".to_string(),
        "4".to_string(),
        "--model_path".to_string(),
        "model.gguf".to_string(),
    ];
    let config = config_from(args, None);

    assert!(!config.disabled);
    assert_eq!(config.num_threads, Some(4));
}

#[test]
fn test_parallelism_argument() {
    let args = vec![
        "inference".to_string(),
        "--parallelism".to_string(),
        "50".to_string(),
        "--model_path".to_string(),
        "model.gguf".to_string(),
    ];
    let available = num_cpus::get();
    let expected = ((available as f64 * 0.5).ceil() as usize).max(1);
    // The percentage is read from the arguments and turned into a count the
    // way the console does it (a float computation kept out of the library).
    let pct: f64 = flag_value(&args, "--parallelism").unwrap().parse().unwrap();
    let percent_threads = ((available as f64 * pct / 100.0).ceil() as usize).max(1);
    let config = config_from(args, Some(percent_threads));

    assert!(!config.disabled);
    assert_eq!(config.num_threads, Some(expected));
}

#[test]
fn test_no_parallel_takes_precedence() {
    let args = vec![
        "inference".to_string(),
        "--no-parallel".to_string(),
        "--threads".to_string(),
        "8".to_string(),
    ];
    let config = config_from(args, None);

    assert!(config.disabled);
    assert_eq!(config.num_threads, Some(1));
}

#[test]
fn test_sequential_flag() {
    let args = vec![
        "inference".to_string(),
        "--model_path".to_string(),
        "model.gguf".to_string(),
        "--sequential".to_string(),
    ];
    let config = config_from(args, None);

    assert!(config.sequential);
}

#[test]
fn test_sequential_with_threads() {
    let args = vec![
        "inference".to_string(),
        "--threads".to_string(),
        "4".to_string(),
        "--sequential".to_string(),
    ];
    let config = config_from(args, None);

    assert!(config.sequential);
    assert_eq!(config.num_threads, Some(4));
}

#[test]
fn test_effective_threads_disabled() {
    let config = ParallelismConfig { num_threads: Some(8), disabled: true, sequential: false };
    assert_eq!(config.effective_threads(), 1);
}

#[test]
fn test_effective_threads_explicit() {
    let config = ParallelismConfig { num_threads: Some(4), disabled: false, sequential: false };
    assert_eq!(config.effective_threads(), 4);
}

#[test]
fn test_effective_threads_default() {
    let config = ParallelismConfig::default();
    let available = num_cpus::get();
    let expected = ((available as f64) * 0.5).ceil() as usize;
    assert_eq!(config.effective_threads(), expected.max(1));
}

#[test]
fn default_threads_rounds_half_up() {
    assert_eq!(default_threads(0), 1);
    assert_eq!(default_threads(1), 1);
    assert_eq!(default_threads(2), 1);
    assert_eq!(default_threads(7), 4);
    assert_eq!(default_threads(8), 4);
    assert_eq!(default_threads(usize::MAX), usize::MAX / 2 + 1);
}

#[test]
fn default_for_eight_cores() {
    let c = ParallelismConfig::default_for(8);
    assert_eq!(c.num_threads, Some(4));
    assert!(!c.disabled);
    assert!(!c.sequential);
}

#[test]
fn zero_or_unreadable_thread_count_is_ignored() {
    let args: Vec<String> = vec!["x".into(), "--threads".into(), "0".into()];
    assert_eq!(scan_parallelism_args(&args).threads, None);
    let args: Vec<String> = vec!["x".into(), "--threads".into(), "four".into()];
    assert_eq!(scan_parallelism_args(&args).threads, None);
    let args: Vec<String> = vec!["x".into(), "--threads".into()];
    assert_eq!(scan_parallelism_args(&args).threads, None);
    let args: Vec<String> = vec!["x".into(), "--threads".into(), "+6".into()];
    assert_eq!(scan_parallelism_args(&args).threads, Some(6));
}

#[test]
fn percentage_overrides_thread_count() {
    let args: Vec<String> = vec!["x".into(), "--threads".into(), "3".into(), "--parallelism".into(), "25".into()];
    let scanned = scan_parallelism_args(&args);
    let c = ParallelismConfig::configure(&scanned, 5, Some(2));
    assert_eq!(c.num_threads, Some(2));
    let c = ParallelismConfig::configure(&scanned, 5, None);
    assert_eq!(c.num_threads, Some(3));
}

#[test]
fn effective_threads_without_count_uses_cores() {
    let c = ParallelismConfig { num_threads: None, disabled: false, sequential: false };
    assert_eq!(c.known_threads(), None);
    assert!(c.effective_threads() >= 1);
}

#[test]
fn parallelism_modes() {
    let disabled = ParallelismConfig { num_threads: Some(1), disabled: true, sequential: false };
    assert_eq!(parallelism_mode(&disabled, 8), ParallelismMode::Disabled);
    assert_eq!(idle_cores(&disabled, 8), None);
    let all = ParallelismConfig { num_threads: Some(8), disabled: false, sequential: false };
    assert_eq!(parallelism_mode(&all, 8), ParallelismMode::AllAvailable);
    assert_eq!(idle_cores(&all, 8), None);
    let half = ParallelismConfig { num_threads: Some(4), disabled: false, sequential: false };
    assert_eq!(parallelism_mode(&half, 8), ParallelismMode::DefaultHalf);
    assert_eq!(idle_cores(&half, 8), Some(4));
    let three = ParallelismConfig { num_threads: Some(3), disabled: false, sequential: false };
    assert_eq!(parallelism_mode(&three, 8), ParallelismMode::Explicit);
    assert_eq!(idle_cores(&three, 8), Some(5));
    let unset = ParallelismConfig { num_threads: None, disabled: false, sequential: false };
    assert_eq!(parallelism_mode(&unset, 8), ParallelismMode::Unset);
}

#[test]
fn every_configuration_sets_at_least_one_thread() {
    let cases: Vec<Vec<&str>> = vec![
        vec!["prog"],
        vec!["prog", "--no-parallel"],
        vec!["prog", "--threads", "0"],
        vec!["prog", "--threads", "3"],
        vec!["prog", "--threads", "x", "--sequential"],
    ];
    for case in cases {
        let args: Vec<String> = case.iter().map(|s| s.to_string()).collect();
        let scanned = scan_parallelism_args(&args);
        for pct in [None, Some(1), Some(5)] {
            let config = ParallelismConfig::configure(&scanned, default_threads(1), pct);
            assert!(matches!(config.num_threads, Some(n) if n >= 1));
        }
    }
}

#[test]
fn sequential_survives_no_parallel() {
    let args: Vec<String> = ["prog", "--no-parallel", "--sequential"].iter().map(|s| s.to_string()).collect();
    let config = config_from(args, None);
    assert!(config.disabled);
    assert_eq!(config.num_threads, Some(1));
    assert!(config.sequential);
}

#[test]
fn effective_threads_for_given_cores() {
    let unset = ParallelismConfig { num_threads: None, disabled: false, sequential: false };
    assert_eq!(unset.effective_threads_for(12), 12);
    assert!(unset.effective_threads() >= 1);
    let set = ParallelismConfig { num_threads: Some(3), disabled: false, sequential: false };
    assert_eq!(set.effective_threads_for(12), 3);
    let off = ParallelismConfig { num_threads: Some(3), disabled: true, sequential: false };
    assert_eq!(off.effective_threads_for(12), 1);
}
