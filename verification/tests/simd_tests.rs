//! SIMD level choice.

use yallma3_llm::util::{simd_level_for, SimdLevel};

#[test]
fn test_simd_level_debug_trait() {
    for (a, b) in [(true, true), (false, true), (false, false)] {
        let debug_str = format!("{:?}", simd_level_for(a, b));
        assert!(
            debug_str.contains("Avx512") || debug_str.contains("Avx2") || debug_str.contains("Scalar"),
            "Debug output should contain variant name"
        );
    }
}

#[test]
fn test_simd_level_clone() {
    let level = simd_level_for(false, true);
    let cloned = level.clone();
    assert_eq!(cloned, SimdLevel::Avx2);
}

#[test]
fn test_simd_level_copy() {
    let level = simd_level_for(true, false);
    let copied = level;
    assert_eq!(level, copied);
}

#[test]
fn test_simd_level_equality() {
    let level1 = simd_level_for(false, true);
    let level2 = simd_level_for(false, true);
    assert_eq!(level1, level2, "SIMD level should be consistent");
    assert_ne!(level1, simd_level_for(false, false));
}

fn assert_send_sync<T: Send + Sync>() {}

#[test]
fn test_simd_level_is_send_sync() {
    assert_send_sync::<SimdLevel>();
}

#[test]
fn simd_level_prefers_avx512_over_avx2() {
    assert_eq!(simd_level_for(true, true), SimdLevel::Avx512);
    assert_eq!(simd_level_for(true, false), SimdLevel::Avx512);
    assert_eq!(simd_level_for(false, true), SimdLevel::Avx2);
    assert_eq!(simd_level_for(false, false), SimdLevel::Scalar);
}
