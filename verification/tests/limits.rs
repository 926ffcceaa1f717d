//! Memory limits, environment settings and text.
use crane_oai::arith::{div_ceil, next_power_of_two};
use crane_oai::clock::{epoch_seconds, epoch_seed};
use crane_oai::cuda_memory::CudaMemoryPoolTrimReport;
use crane_oai::floats::{is_at_least_one, is_at_most_zero, is_inside_unit};
use crane_oai::memory::{
    effective_gpu_budget_bytes, memory_limit_text, runtime_limits, MemoryConfig, MemoryLimitText,
};
use crane_oai::settings::{
    env_count, env_duration_secs, env_flag, env_flag_default, env_flag_is_explicit, env_usize,
};
use crane_oai::text::{contains, eq_ignore_case, parse_u64, push_decimal, trim};

fn config(limit: u64, baseline: u64) -> MemoryConfig {
    let mut config = MemoryConfig::parse(100, limit);
    config.record_baseline(baseline);
    config
}

#[test]
fn kv_budget_is_a_sixth_of_what_is_left() {
    assert_eq!(config(1000, 400).kv_budget_bytes(), 100);
    assert_eq!(config(400, 1000).kv_budget_bytes(), 0);
    assert_eq!(config(0, 400).kv_budget_bytes(), u64::MAX);
}

#[test]
fn budget_keeps_the_limit() {
    let config = config(1000, 400);
    assert!(400 + config.kv_budget_bytes() * 6 <= 1000);
}

#[test]
fn prefills_wait_when_over_budget() {
    let config = config(1000, 400);
    assert!(!config.is_over_kv_budget(false, 100, 0, 0));
    assert!(config.is_over_kv_budget(false, 101, 0, 0));
    assert!(config.is_over_kv_budget(false, 0, 0, 1001));
    assert!(!config.is_over_kv_budget(false, 0, 1, 1001));
    assert!(!config.is_over_kv_budget(true, 101, 0, 1001));
}

#[test]
fn accepted_requests_fit_the_sequence_limit() {
    let config = config(0, 0);
    assert_eq!(config.effective_max_tokens(90, 50), 10);
    assert_eq!(config.effective_max_tokens(90, 5), 5);
    assert_eq!(config.effective_max_tokens(200, 5), 0);
    assert_eq!(MemoryConfig::parse(0, 0).effective_max_tokens(200, 5), 5);
}

#[test]
fn memory_limits_are_read_by_their_ending() {
    assert!(matches!(memory_limit_text("  "), MemoryLimitText::Unlimited));
    assert!(matches!(memory_limit_text("0"), MemoryLimitText::Unlimited));
    assert!(matches!(memory_limit_text(" 8g "), MemoryLimitText::Gib(n) if n == "8"));
    assert!(matches!(memory_limit_text("5120 M"), MemoryLimitText::Mib(n) if n == "5120"));
    assert!(matches!(memory_limit_text("0.7"), MemoryLimitText::Plain("0.7")));
}

#[test]
fn budget_is_what_is_free_under_the_limit() {
    assert_eq!(effective_gpu_budget_bytes(&config(10, 0), 7), 7);
    assert_eq!(effective_gpu_budget_bytes(&config(10, 0), 20), 10);
    assert_eq!(effective_gpu_budget_bytes(&config(10, 0), 0), 10);
    assert_eq!(effective_gpu_budget_bytes(&config(0, 0), 7), 7);
}

#[test]
fn what_the_user_asks_for_comes_first() {
    assert_eq!(runtime_limits(0, None, None), (16, 16));
    assert_eq!(runtime_limits(0, Some(3), None), (3, 16));
    assert_eq!(runtime_limits(0, None, Some(9)), (16, 9));
}

#[test]
fn defaults_grow_with_the_budget() {
    let mut last = runtime_limits(1, None, None);
    for gib in [5u64, 7, 11, 17] {
        let next = runtime_limits(gib << 30, None, None);
        assert!(next.0 >= last.0 && next.1 >= last.1);
        last = next;
    }
}

#[test]
fn flags_are_on_off_or_default() {
    for yes in ["1", "true", "TRUE", "yes", "YES", "on", "ON"] {
        assert!(env_flag(Some(yes)));
        assert!(env_flag_is_explicit(Some(yes)));
    }
    for no in ["0", "false", "FALSE", "no", "NO", "off", "OFF"] {
        assert!(!env_flag_default(Some(no), true));
    }
    assert!(env_flag_default(Some("maybe"), true));
    assert!(env_flag_default(None, true));
    assert!(!env_flag(None));
    assert!(!env_flag_is_explicit(Some("maybe")));
}

#[test]
fn numbers_of_the_environment() {
    assert_eq!(env_usize(Some("12"), 3), 12);
    assert_eq!(env_usize(Some("0"), 3), 3);
    assert_eq!(env_usize(Some("x"), 3), 3);
    assert_eq!(env_duration_secs(None, 120), Some(120));
    assert_eq!(env_duration_secs(Some(" 5 "), 120), Some(5));
    assert_eq!(env_duration_secs(Some("0"), 120), None);
    assert_eq!(env_duration_secs(None, 0), None);
    assert_eq!(env_count(Some("7")), 7);
    assert_eq!(env_count(Some("4294967296")), 0);
}

#[test]
fn text_is_read_and_written() {
    assert_eq!(trim("\u{3000} a b \n"), "a b");
    assert_eq!(parse_u64("+18446744073709551615"), Some(u64::MAX));
    assert_eq!(parse_u64("18446744073709551616"), None);
    assert_eq!(parse_u64("+"), None);
    let mut out = String::new();
    push_decimal(&mut out, 9070);
    assert_eq!(out, "9070");
    assert_eq!(parse_u64(&out), Some(9070));
    assert!(eq_ignore_case("QwEn3", "qwen3"));
    assert!(!eq_ignore_case("[", "{"));
    assert!(contains("aqwqwen3", "qwen3"));
    assert!(contains("a", ""));
    assert!(!contains("qwen", "qwen3"));
}

#[test]
fn numbers_round_up() {
    assert_eq!(div_ceil(17, 8), 3);
    assert_eq!(div_ceil(16, 8), 2);
    assert_eq!(next_power_of_two(5), 8);
    assert_eq!(next_power_of_two(8), 8);
    assert_eq!(next_power_of_two(0), 1);
}

#[test]
fn bit_patterns_fall_into_three_ranges() {
    let bits = |value: f64| value.to_bits();
    assert!(is_at_most_zero(bits(0.0)) && is_at_most_zero(bits(-0.0)) && is_at_most_zero(bits(-3.5)));
    assert!(!is_at_most_zero(bits(1.0e-300)) && !is_at_most_zero(bits(f64::NAN)));
    assert!(is_at_least_one(bits(1.0)) && is_at_least_one(bits(f64::INFINITY)));
    assert!(!is_at_least_one(bits(0.999)) && !is_at_least_one(bits(f64::NAN)));
    assert!(is_inside_unit(bits(0.5)) && !is_inside_unit(bits(1.0)) && !is_inside_unit(bits(0.0)));
}

#[test]
fn times_before_the_epoch_count_as_the_epoch() {
    assert_eq!(epoch_seconds(None), 0);
    assert_eq!(epoch_seconds(Some(std::time::Duration::from_millis(2500))), 2);
    assert_eq!(epoch_seed(Some(std::time::Duration::from_nanos(12))), 12);
}

#[test]
fn trim_reports_what_was_reclaimed() {
    let report = CudaMemoryPoolTrimReport {
        gpu_used_before_bytes: 10,
        gpu_used_after_bytes: 4,
        gpu_total_bytes: 20,
        pool_reserved_before_bytes: Some(9),
        pool_reserved_after_bytes: Some(11),
        pool_used_before_bytes: None,
        pool_used_after_bytes: None,
    };
    assert_eq!(report.gpu_reclaimed_bytes(), 6);
    assert_eq!(report.pool_reserved_reclaimed_bytes(), Some(0));
}
