//! Engine statistics.
use crane_oai::stats::{avg_ms, avg_us, per_second, EngineStats, Ratio};

fn value(ratio: Ratio) -> f64 {
    ratio.numerator as f64 / ratio.denominator as f64
}


#[test]
fn new_stats_are_zero() {
    let s = EngineStats::new();
    assert_eq!(s.total_requests.load(), 0);
    assert_eq!(s.completed_requests.load(), 0);
    assert_eq!(s.cancelled_requests.load(), 0);
    assert_eq!(s.failed_requests.load(), 0);
    assert_eq!(s.total_prompt_tokens.load(), 0);
    assert_eq!(s.total_completion_tokens.load(), 0);
    assert_eq!(s.total_prefill_time_us.load(), 0);
    assert_eq!(s.total_decode_steps.load(), 0);
    assert_eq!(s.total_decode_time_us.load(), 0);
    assert_eq!(s.total_kv_swap_count.load(), 0);
    assert_eq!(s.active_sequences.load(), 0);
    assert_eq!(s.waiting_sequences.load(), 0);
    assert_eq!(s.total_prefill_steps.load(), 0);
    assert_eq!(s.total_prefix_cache_hits.load(), 0);
    assert_eq!(s.prefix_cache_bytes.load(), 0);
    assert_eq!(s.total_batch_decode_calls.load(), 0);
    assert_eq!(
        s.total_batch_decode_setup_pad_stack_time_us
            .load(),
        0
    );
    assert_eq!(
        s.total_batch_decode_extract_contiguous_time_us
            .load(),
        0
    );
    assert_eq!(
        s.total_batch_decode_device_token_input_hits
            .load(),
        0
    );
    assert_eq!(s.total_sequential_decode_calls.load(), 0);
    assert_eq!(
        s.total_sampling_batch_greedy_tokens.load(),
        0
    );
    assert_eq!(
        s.total_sampling_batch_greedy_cuda_penalty_tokens
            .load(),
        0
    );
    assert_eq!(
        s.total_sampling_non_greedy_tokens.load(),
        0
    );
    assert_eq!(
        s.total_sampling_batch_non_greedy_tokens
            .load(),
        0
    );
    assert_eq!(
        s.total_sampling_batch_non_greedy_cuda_bf16_tokens
            .load(),
        0
    );
    assert_eq!(
        s.total_sampling_batch_non_greedy_fallback_tokens
            .load(),
        0
    );
    assert_eq!(s.total_paged_kv_metadata_syncs.load(), 0);
    assert_eq!(s.total_paged_kv_compactions.load(), 0);
    assert_eq!(s.total_paged_kv_idle_resets.load(), 0);
    assert_eq!(s.total_paged_kv_pressure_skips.load(), 0);
    assert_eq!(s.total_paged_kv_gather_extracts.load(), 0);
    assert_eq!(
        s.total_paged_kv_batched_setup_ragged_layers
            .load(),
        0
    );
    assert_eq!(
        s.total_paged_kv_attention_decode_calls
            .load(),
        0
    );
    assert_eq!(s.total_cuda_graph_decode_rounds.load(), 0);
    assert_eq!(
        s.total_cuda_graph_decode_miss_dynamic_kv
            .load(),
        0
    );
    assert_eq!(s.paged_kv_live_pages.load(), 0);
    assert_eq!(s.paged_kv_reserved_bytes.load(), 0);
    assert_eq!(s.paged_kv_gpu_capacity_bytes.load(), 0);
}

#[test]
fn snapshot_copies_all_counters() {
    let mut s = EngineStats::new();
    s.total_requests.store(10);
    s.completed_requests.store(7);
    s.cancelled_requests.store(2);
    s.failed_requests.store(1);
    s.total_prompt_tokens.store(500);
    s.total_completion_tokens.store(1000);
    s.total_kv_swap_count.store(3);
    s.active_sequences.store(4);
    s.waiting_sequences.store(2);
    s.total_prefill_steps.store(5);
    s.total_prefix_cache_lookups.store(9);
    s.total_prefix_cache_hits.store(7);
    s.total_prefix_cache_hit_tokens
        .store(1792);
    s.prefix_cache_entries.store(2);
    s.prefix_cache_bytes.store(4096);
    s.total_queue_wait_time_us.store(50_000);
    s.total_time_to_first_token_us
        .store(150_000);
    s.total_batch_decode_calls.store(4);
    s.total_batch_decode_tokens.store(32);
    s.total_batch_decode_setup_pad_stack_time_us
        .store(40_000);
    s.total_batch_decode_setup_contiguous_time_us
        .store(20_000);
    s.total_batch_decode_extract_narrow_time_us
        .store(8_000);
    s.total_batch_decode_extract_contiguous_time_us
        .store(12_000);
    s.total_batch_decode_extract_state_replace_time_us
        .store(4_000);
    s.total_batch_decode_device_token_input_hits
        .store(11);
    s.total_batch_decode_device_token_input_tokens
        .store(88);
    s.total_sequential_decode_calls.store(2);
    s.total_sequential_decode_tokens.store(8);
    s.total_sampling_batch_greedy_calls
        .store(6);
    s.total_sampling_batch_greedy_tokens
        .store(48);
    s.total_sampling_batch_greedy_cuda_plain_calls
        .store(2);
    s.total_sampling_batch_greedy_cuda_plain_tokens
        .store(8);
    s.total_sampling_batch_greedy_cuda_penalty_calls
        .store(3);
    s.total_sampling_batch_greedy_cuda_penalty_tokens
        .store(24);
    s.total_sampling_batch_greedy_tensor_fallback_calls
        .store(1);
    s.total_sampling_batch_greedy_tensor_fallback_tokens
        .store(16);
    s.total_sampling_batch_non_greedy_calls
        .store(7);
    s.total_sampling_batch_non_greedy_tokens
        .store(56);
    s.total_sampling_row_greedy_tokens
        .store(3);
    s.total_sampling_non_greedy_tokens
        .store(5);
    s.total_paged_kv_metadata_syncs.store(11);
    s.total_paged_kv_new_pages.store(12);
    s.total_paged_kv_reused_pages.store(13);
    s.total_paged_kv_released_pages.store(14);
    s.total_paged_kv_compactions.store(15);
    s.total_paged_kv_compacted_pages
        .store(16);
    s.total_paged_kv_idle_resets.store(17);
    s.total_paged_kv_idle_reset_pages
        .store(18);
    s.total_paged_kv_pressure_skips.store(19);
    s.total_paged_kv_pressure_released_pages
        .store(20);
    s.total_paged_kv_gather_extracts
        .store(21);
    s.total_paged_kv_gather_extract_layers
        .store(22);
    s.total_paged_kv_batched_setup_hits
        .store(23);
    s.total_paged_kv_batched_setup_regather
        .store(24);
    s.total_paged_kv_batched_setup_us
        .store(25);
    s.total_paged_kv_batched_setup_equal_length_layers
        .store(26);
    s.total_paged_kv_batched_setup_ragged_layers
        .store(27);
    s.total_paged_kv_batched_setup_ragged_rows
        .store(28);
    s.total_paged_kv_batched_setup_pending_batch_mismatch
        .store(29);
    s.total_paged_kv_batched_setup_pending_token_mismatch
        .store(30);
    s.total_paged_kv_batched_setup_fallback_per_seq_cache
        .store(31);
    s.total_paged_kv_batched_setup_fallback_regather_unavailable
        .store(32);
    s.total_paged_kv_batched_setup_fallback_regather_error
        .store(33);
    s.total_paged_kv_attention_contexts
        .store(34);
    s.total_paged_kv_attention_decode_calls
        .store(35);
    s.total_paged_kv_attention_decode_tokens
        .store(36);
    s.total_paged_kv_attention_layer_hits
        .store(37);
    s.total_paged_kv_attention_layer_fallbacks
        .store(38);
    s.total_paged_kv_attention_fallbacks
        .store(39);
    s.total_cuda_graph_decode_rounds
        .store(34);
    s.total_cuda_graph_decode_eligible_rounds
        .store(35);
    s.total_cuda_graph_decode_capture_attempts
        .store(36);
    s.total_cuda_graph_decode_capture_successes
        .store(37);
    s.total_cuda_graph_decode_capture_failures
        .store(38);
    s.total_cuda_graph_decode_replay_calls
        .store(39);
    s.total_cuda_graph_decode_replay_tokens
        .store(40);
    s.total_cuda_graph_decode_fallbacks
        .store(41);
    s.total_cuda_graph_decode_fallback_tokens
        .store(42);
    s.total_cuda_graph_decode_miss_no_bucket
        .store(43);
    s.total_cuda_graph_decode_miss_mask
        .store(44);
    s.total_cuda_graph_decode_miss_paged_attention
        .store(45);
    s.total_cuda_graph_decode_miss_dynamic_kv
        .store(46);
    s.total_cuda_graph_decode_miss_device
        .store(47);
    s.paged_kv_block_size.store(16);
    s.paged_kv_live_pages.store(17);
    s.paged_kv_free_pages.store(18);
    s.paged_kv_live_tokens.store(19);
    s.paged_kv_reserved_tokens.store(20);
    s.paged_kv_fragment_tokens.store(21);
    s.paged_kv_reserved_bytes.store(22);
    s.paged_kv_gpu_capacity_pages.store(26);
    s.paged_kv_gpu_capacity_bytes.store(27);
    s.paged_kv_total_alloc_pages.store(23);
    s.paged_kv_total_reused_pages.store(24);
    s.paged_kv_total_freed_pages.store(25);
    s.tracked_kv_cache_bytes.store(1024);

    let snap = s.snapshot();
    assert_eq!(snap.total_requests, 10);
    assert_eq!(snap.completed_requests, 7);
    assert_eq!(snap.cancelled_requests, 2);
    assert_eq!(snap.failed_requests, 1);
    assert_eq!(snap.total_prompt_tokens, 500);
    assert_eq!(snap.total_completion_tokens, 1000);
    assert_eq!(snap.total_kv_swaps, 3);
    assert_eq!(snap.active_sequences, 4);
    assert_eq!(snap.waiting_sequences, 2);
    assert_eq!(snap.total_prefill_steps, 5);
    assert_eq!(snap.total_batch_decode_calls, 4);
    assert_eq!(snap.total_batch_decode_tokens, 32);
    assert_eq!(snap.total_batch_decode_setup_pad_stack_time_us, 40_000);
    assert_eq!(snap.total_batch_decode_setup_contiguous_time_us, 20_000);
    assert_eq!(snap.total_batch_decode_extract_narrow_time_us, 8_000);
    assert_eq!(snap.total_batch_decode_extract_contiguous_time_us, 12_000);
    assert_eq!(snap.total_batch_decode_extract_state_replace_time_us, 4_000);
    assert_eq!(snap.total_batch_decode_device_token_input_hits, 11);
    assert_eq!(snap.total_batch_decode_device_token_input_tokens, 88);
    assert_eq!(snap.total_sequential_decode_calls, 2);
    assert_eq!(snap.total_sequential_decode_tokens, 8);
    assert_eq!(snap.total_sampling_batch_greedy_calls, 6);
    assert_eq!(snap.total_sampling_batch_greedy_tokens, 48);
    assert_eq!(snap.total_sampling_batch_greedy_cuda_plain_calls, 2);
    assert_eq!(snap.total_sampling_batch_greedy_cuda_plain_tokens, 8);
    assert_eq!(snap.total_sampling_batch_greedy_cuda_penalty_calls, 3);
    assert_eq!(snap.total_sampling_batch_greedy_cuda_penalty_tokens, 24);
    assert_eq!(snap.total_sampling_batch_greedy_tensor_fallback_calls, 1);
    assert_eq!(snap.total_sampling_batch_greedy_tensor_fallback_tokens, 16);
    assert_eq!(snap.total_sampling_batch_non_greedy_calls, 7);
    assert_eq!(snap.total_sampling_batch_non_greedy_tokens, 56);
    assert_eq!(snap.total_sampling_row_greedy_tokens, 3);
    assert_eq!(snap.total_sampling_non_greedy_tokens, 5);
    assert_eq!(snap.total_paged_kv_metadata_syncs, 11);
    assert_eq!(snap.total_paged_kv_new_pages, 12);
    assert_eq!(snap.total_paged_kv_reused_pages, 13);
    assert_eq!(snap.total_paged_kv_released_pages, 14);
    assert_eq!(snap.total_paged_kv_compactions, 15);
    assert_eq!(snap.total_paged_kv_compacted_pages, 16);
    assert_eq!(snap.total_paged_kv_idle_resets, 17);
    assert_eq!(snap.total_paged_kv_idle_reset_pages, 18);
    assert_eq!(snap.total_paged_kv_pressure_skips, 19);
    assert_eq!(snap.total_paged_kv_pressure_released_pages, 20);
    assert_eq!(snap.total_paged_kv_gather_extracts, 21);
    assert_eq!(snap.total_paged_kv_gather_extract_layers, 22);
    assert_eq!(snap.total_paged_kv_batched_setup_hits, 23);
    assert_eq!(snap.total_paged_kv_batched_setup_regather, 24);
    assert_eq!(snap.total_paged_kv_batched_setup_us, 25);
    assert_eq!(snap.total_paged_kv_batched_setup_equal_length_layers, 26);
    assert_eq!(snap.total_paged_kv_batched_setup_ragged_layers, 27);
    assert_eq!(snap.total_paged_kv_batched_setup_ragged_rows, 28);
    assert_eq!(snap.total_paged_kv_batched_setup_pending_batch_mismatch, 29);
    assert_eq!(snap.total_paged_kv_batched_setup_pending_token_mismatch, 30);
    assert_eq!(snap.total_paged_kv_batched_setup_fallback_per_seq_cache, 31);
    assert_eq!(
        snap.total_paged_kv_batched_setup_fallback_regather_unavailable,
        32
    );
    assert_eq!(
        snap.total_paged_kv_batched_setup_fallback_regather_error,
        33
    );
    assert_eq!(snap.total_paged_kv_attention_contexts, 34);
    assert_eq!(snap.total_paged_kv_attention_decode_calls, 35);
    assert_eq!(snap.total_paged_kv_attention_decode_tokens, 36);
    assert_eq!(snap.total_paged_kv_attention_layer_hits, 37);
    assert_eq!(snap.total_paged_kv_attention_layer_fallbacks, 38);
    assert_eq!(snap.total_paged_kv_attention_fallbacks, 39);
    assert_eq!(snap.total_cuda_graph_decode_rounds, 34);
    assert_eq!(snap.total_cuda_graph_decode_eligible_rounds, 35);
    assert_eq!(snap.total_cuda_graph_decode_capture_attempts, 36);
    assert_eq!(snap.total_cuda_graph_decode_capture_successes, 37);
    assert_eq!(snap.total_cuda_graph_decode_capture_failures, 38);
    assert_eq!(snap.total_cuda_graph_decode_replay_calls, 39);
    assert_eq!(snap.total_cuda_graph_decode_replay_tokens, 40);
    assert_eq!(snap.total_cuda_graph_decode_fallbacks, 41);
    assert_eq!(snap.total_cuda_graph_decode_fallback_tokens, 42);
    assert_eq!(snap.total_cuda_graph_decode_miss_no_bucket, 43);
    assert_eq!(snap.total_cuda_graph_decode_miss_mask, 44);
    assert_eq!(snap.total_cuda_graph_decode_miss_paged_attention, 45);
    assert_eq!(snap.total_cuda_graph_decode_miss_dynamic_kv, 46);
    assert_eq!(snap.total_cuda_graph_decode_miss_device, 47);
    assert_eq!(snap.paged_kv_block_size, 16);
    assert_eq!(snap.paged_kv_live_pages, 17);
    assert_eq!(snap.paged_kv_free_pages, 18);
    assert_eq!(snap.paged_kv_live_tokens, 19);
    assert_eq!(snap.paged_kv_reserved_tokens, 20);
    assert_eq!(snap.paged_kv_fragment_tokens, 21);
    assert_eq!(snap.paged_kv_reserved_bytes, 22);
    assert_eq!(snap.paged_kv_gpu_capacity_pages, 26);
    assert_eq!(snap.paged_kv_gpu_capacity_bytes, 27);
    assert_eq!(snap.paged_kv_total_alloc_pages, 23);
    assert_eq!(snap.paged_kv_total_reused_pages, 24);
    assert_eq!(snap.paged_kv_total_freed_pages, 25);
    assert_eq!(snap.tracked_kv_cache_bytes, 1024);
    assert_eq!(snap.total_prefix_cache_lookups, 9);
    assert_eq!(snap.total_prefix_cache_hits, 7);
    assert_eq!(snap.total_prefix_cache_hit_tokens, 1792);
    assert_eq!(snap.prefix_cache_entries, 2);
    assert_eq!(snap.prefix_cache_bytes, 4096);
    assert!((value(snap.avg_queue_wait_ms) - 10.0).abs() < 0.01);
    assert!((value(snap.avg_time_to_first_token_ms) - 30.0).abs() < 0.01);
    assert!((value(snap.avg_batch_decode_setup_pad_stack_ms) - 10.0).abs() < 0.01);
    assert!((value(snap.avg_batch_decode_extract_contiguous_ms) - 3.0).abs() < 0.01);
    assert!((value(snap.avg_batch_decode_extract_state_replace_ms) - 1.0).abs() < 0.01);
}

#[test]
fn snapshot_decode_rate_calculation() {
    let mut s = EngineStats::new();
    // 100 decode steps in 1 second (1_000_000 μs)
    s.total_decode_steps.store(100);
    s.total_decode_time_us.store(1_000_000);

    let snap = s.snapshot();
    assert!((value(snap.avg_decode_tokens_per_sec) - 100.0).abs() < 0.01);
}

#[test]
fn snapshot_prefill_rate_calculation() {
    let mut s = EngineStats::new();
    // 500 prompt tokens prefilled in 0.5 seconds (500_000 μs)
    s.total_prompt_tokens.store(500);
    s.total_prefill_time_us.store(500_000);

    let snap = s.snapshot();
    assert!((value(snap.avg_prefill_tokens_per_sec) - 1000.0).abs() < 0.01);
}

#[test]
fn snapshot_zero_time_gives_zero_rate() {
    let mut s = EngineStats::new();
    s.total_decode_steps.store(50);
    // time stays 0
    let snap = s.snapshot();
    assert_eq!(value(snap.avg_decode_tokens_per_sec), 0.0);
    assert_eq!(value(snap.avg_prefill_tokens_per_sec), 0.0);
}

#[test]
fn atomic_fetch_add_works() {
    let mut s = EngineStats::new();
    s.total_requests.fetch_add(1);
    s.total_requests.fetch_add(1);
    s.total_requests.fetch_add(1);
    assert_eq!(s.snapshot().total_requests, 3);
}

#[test]
fn averages_are_exact_quotients() {
    assert_eq!(avg_ms(7, 2), Ratio { numerator: 7, denominator: 2000 });
    assert_eq!(avg_us(7, 2), Ratio { numerator: 7, denominator: 2 });
    assert_eq!(per_second(3, 4), Ratio { numerator: 3_000_000, denominator: 4 });
    assert_eq!(avg_ms(7, 0), Ratio { numerator: 0, denominator: 1 });
}

#[test]
fn counters_wrap() {
    let mut s = EngineStats::new();
    s.total_requests.store(u64::MAX);
    assert_eq!(s.total_requests.fetch_add(2), u64::MAX);
    assert_eq!(s.total_requests.load(), 1);
}
