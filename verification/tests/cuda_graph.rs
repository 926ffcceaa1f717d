//! Graph capture planning.
use candle_core::{DType, Device};
use crane_oai::cuda_graph::{
    mask_blocks_capture, parse_buckets, record_decision, CudaGraphCache, CudaGraphDecodeDecision,
    CudaGraphDecodeKey, CudaGraphDecodeMiss, CudaGraphDecodePlanner, CudaGraphEnv, CudaGraphRound,
};
use crane_oai::stats::EngineStats;


#[test]
fn parse_buckets_filters_sorts_and_deduplicates() {
    assert_eq!(parse_buckets(Some("8, 1, bad, 4, 4, 0")), vec![1, 4, 8]);
}

#[test]
fn parse_buckets_uses_defaults_when_empty() {
    assert_eq!(parse_buckets(Some("bad,0")), vec![1, 2, 4, 8, 16, 32, 64]);
    assert_eq!(parse_buckets(None), vec![1, 2, 4, 8, 16, 32, 64]);
}

#[test]
fn disabled_planner_does_not_classify() {
    let planner = CudaGraphDecodePlanner {
        enabled: false,
        fixed_width_decode: false,
        capture_runtime: false,
        capture_sampling: false,
        max_replays: 0,
        buckets: vec![1],
    };
    let decision =
        planner.classify_round(1, &Device::Cpu, DType::BF16, false, false, false, false);
    assert_eq!(decision, CudaGraphDecodeDecision::Disabled);
}

#[test]
fn enabled_cpu_round_is_device_miss() {
    let planner = CudaGraphDecodePlanner {
        enabled: true,
        fixed_width_decode: false,
        capture_runtime: false,
        capture_sampling: false,
        max_replays: 0,
        buckets: vec![1],
    };
    let decision =
        planner.classify_round(1, &Device::Cpu, DType::BF16, false, false, false, false);
    assert_eq!(
        decision,
        CudaGraphDecodeDecision::Miss(CudaGraphDecodeMiss::UnsupportedDevice)
    );
}

#[test]
fn only_dynamic_masks_block_capture() {
    assert!(mask_blocks_capture(true, false));
    assert!(!mask_blocks_capture(true, true));
    assert!(!mask_blocks_capture(false, false));
}

#[test]
fn fixed_width_is_limited_to_configured_batch_buckets() {
    let planner = CudaGraphDecodePlanner {
        enabled: true,
        fixed_width_decode: true,
        capture_runtime: true,
        capture_sampling: false,
        max_replays: 0,
        buckets: vec![1, 8, 32],
    };
    assert!(planner.fixed_width_decode_for(1));
    assert!(planner.fixed_width_decode_for(32));
    assert!(!planner.fixed_width_decode_for(7));
    assert!(!planner.fixed_width_decode_for(64));
}

#[test]
fn fixed_width_mask_reaches_dynamic_kv_blocker_without_append_metadata_on_cuda_bf16() {
    let planner = CudaGraphDecodePlanner {
        enabled: true,
        fixed_width_decode: true,
        capture_runtime: false,
        capture_sampling: false,
        max_replays: 0,
        buckets: vec![1],
    };
    let decision = planner.classify(1, true, true, true, true, false, false);

    assert_eq!(
        decision,
        CudaGraphDecodeDecision::BlockedDynamicKv { bucket: 1 }
    );
}

#[test]
fn fixed_width_append_metadata_marks_round_ready_on_cuda_bf16() {
    let planner = CudaGraphDecodePlanner {
        enabled: true,
        fixed_width_decode: true,
        capture_runtime: false,
        capture_sampling: false,
        max_replays: 0,
        buckets: vec![1],
    };
    let decision = planner.classify(1, true, true, true, true, false, true);

    assert_eq!(decision, CudaGraphDecodeDecision::Ready { bucket: 1 });
}

#[test]
fn record_blocked_round_updates_dynamic_kv_counters() {
    let mut stats = EngineStats::new();
    record_decision(
        &mut stats,
        CudaGraphDecodeDecision::BlockedDynamicKv { bucket: 4 },
        3,
    );
    assert_eq!(
        stats
            .total_cuda_graph_decode_eligible_rounds.load(),
        1
    );
    assert_eq!(
        stats
            .total_cuda_graph_decode_miss_dynamic_kv.load(),
        1
    );
    assert_eq!(
        stats
            .total_cuda_graph_decode_fallback_tokens.load(),
        3
    );
}

fn ready() -> CudaGraphDecodeDecision {
    CudaGraphDecodeDecision::Ready { bucket: 4 }
}

fn key() -> CudaGraphDecodeKey {
    CudaGraphDecodeKey { bucket: 4, fixed_cache_width: 128, has_mask: true }
}

#[test]
fn planner_follows_the_environment() {
    let env = CudaGraphEnv {
        enabled: Some("1"),
        buckets: Some("2,3"),
        fixed_width: Some("yes"),
        capture: Some("on"),
        capture_sampling: None,
        max_replays: Some("5"),
    };
    let planner = CudaGraphDecodePlanner::from_env(&env);
    assert!(planner.enabled());
    assert_eq!(planner.bucket_csv(), "2,3");
    assert_eq!(planner.max_replays(), 5);
}

#[test]
fn first_obstacle_decides() {
    let planner = CudaGraphDecodePlanner {
        enabled: true,
        fixed_width_decode: true,
        capture_runtime: true,
        capture_sampling: false,
        max_replays: 0,
        buckets: vec![4],
    };
    let miss = |reason| CudaGraphDecodeDecision::Miss(reason);
    assert_eq!(
        planner.classify(4, true, false, false, true, false, true),
        miss(CudaGraphDecodeMiss::UnsupportedDevice)
    );
    assert_eq!(
        planner.classify(3, true, true, false, true, true, true),
        miss(CudaGraphDecodeMiss::NoBucket)
    );
    assert_eq!(
        planner.classify(4, true, true, true, false, true, true),
        miss(CudaGraphDecodeMiss::PagedAttention)
    );
    assert_eq!(
        planner.classify(4, true, true, true, false, false, true),
        miss(CudaGraphDecodeMiss::AttentionMask)
    );
}

#[test]
fn graph_is_captured_once_and_then_replayed() {
    let mut cache = CudaGraphCache::new(1);
    let found = cache.key_for(ready(), true, true, 128, true);
    assert_eq!(found, Some(key()));
    assert_eq!(cache.plan_round(found, false), CudaGraphRound::Capture { key: key() });
    cache.after_capture(key(), true, Some(4));
    assert_eq!(
        cache.plan_round(found, false),
        CudaGraphRound::Replay { key: key(), captured_sample_batch: Some(4) }
    );
    cache.after_replay(key(), true, 2);
    assert_eq!(cache.entries.len(), 1);
    cache.plan_round(found, false);
    cache.after_replay(key(), true, 2);
    assert!(cache.entries.is_empty());
}

#[test]
fn failed_graph_is_not_tried_again() {
    let mut cache = CudaGraphCache::new(1);
    cache.after_capture(key(), false, None);
    assert_eq!(cache.key_for(ready(), true, true, 128, true), None);
    assert_eq!(cache.plan_round(None, false), CudaGraphRound::Eager);
    cache.sync_generation(1);
    assert_eq!(cache.poisoned.len(), 1);
    cache.sync_generation(2);
    assert!(cache.poisoned.is_empty());
}

#[test]
fn moved_buffers_invalidate_graphs() {
    let mut cache = CudaGraphCache::new(1);
    cache.after_capture(key(), true, None);
    cache.invalidate_on_realloc(false);
    assert_eq!(cache.entries.len(), 1);
    cache.invalidate_on_realloc(true);
    assert!(cache.entries.is_empty());
}

#[test]
fn buckets_survive_being_written_and_read() {
    for raw in [None, Some("bad,0"), Some(" 16, 2,junk,+7,2")] {
        let planner = CudaGraphDecodePlanner {
            enabled: true,
            fixed_width_decode: true,
            capture_runtime: false,
            capture_sampling: false,
            max_replays: 0,
            buckets: parse_buckets(raw),
        };
        assert_eq!(parse_buckets(Some(&planner.bucket_csv())), planner.buckets);
    }
}
