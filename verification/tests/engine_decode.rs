//! Batched decode.
use candle_core::{DType, Device, Tensor};
use crane_oai::cuda_graph::{
    CudaGraphDecodeKey, CudaGraphDecodePlanner, CudaGraphEnv, CudaGraphRound,
};
use crane_oai::engine::append::PageCopyError;
use crane_oai::engine::batch_flow::{
    SampleAction, SampleEvent, SettlePlan, SetupAction, SetupEvent,
};
use crane_oai::engine::backend::{BatchDecodeExtractTimings, BatchDecodeSetupTimings};
use crane_oai::engine::config::{EngineEnv, ModelTraits};
use crane_oai::engine::decode::RowOutcome;
use crane_oai::engine::decode_finish::BatchDecodeTimings;
use crane_oai::engine::decode_rounds::GraphBufferCapacities;
use crane_oai::engine::extract::{sequence_kv_cache_len, BatchedKvExtract, KvCacheLenError};
use crane_oai::engine::lifecycle::EngineRequest;
use crane_oai::engine::shadow::{ensure_shadow_values_match, ShadowError};
use crane_oai::engine::shadow_check::{read_words, single_values};
use crane_oai::engine::state::InferenceEngine;
use crane_oai::engine::turns::PrefillTimings;
use crane_oai::memory::MemoryConfig;
use crane_oai::paged_kv::{PagedKvLayout, PagedKvPlane};
use crane_oai::sampling::BatchGreedyMode;
use crane_oai::tensors::LayerKvCaches;

fn layout() -> PagedKvLayout {
    PagedKvLayout { num_layers: 2, num_kv_heads: 1, head_dim: 2, dtype_size_bytes: 4 }
}

fn model(supports_kv_swap: bool) -> ModelTraits {
    ModelTraits {
        num_layers: 2,
        supports_kv_swap,
        supports_batch_decode: true,
        device: Device::Cpu,
        dtype: DType::F32,
        kv_layout: Some(layout()),
        workspace_generation: 1,
    }
}

fn env() -> EngineEnv<'static> {
    EngineEnv {
        paged_kv_block_size: Some("4"),
        paged_kv_shadow_validate: None,
        paged_kv_shadow_max_layers: None,
        paged_kv_native_append: None,
        paged_kv_pressure_reserve_mb: None,
        paged_kv_gather_extract: None,
        paged_kv_attention: None,
        paged_kv_attention_min_active_rows: None,
        paged_kv_attention_min_seq_len: None,
        paged_kv_batched_setup: None,
        idle_cuda_mem_trim_secs: None,
        profile: None,
        sched_wait_batch_us: Some("500"),
        sched_wait_batch_target: None,
        sched_wait_batch_poll_us: None,
        disable_gpu_mem_hard_check: None,
        decode_device_token_input: None,
        graph_width_bucket: None,
        graph_no_reuse: None,
        graph: CudaGraphEnv {
            enabled: None,
            buckets: None,
            fixed_width: None,
            capture: None,
            capture_sampling: None,
            max_replays: None,
        },
    }
}

fn engine(max_concurrent: usize, memory: MemoryConfig) -> InferenceEngine {
    InferenceEngine::new(&model(true), max_concurrent, 4, memory, &env())
}

fn request(id: u64, tokens: Vec<u32>, max_tokens: usize) -> EngineRequest {
    EngineRequest {
        id,
        request_id: format!("request-{id}"),
        tokens,
        max_tokens,
        temperature: Some(0.0f64.to_bits()),
        top_p: None,
        top_k: None,
        repetition_penalty: 1.0f32.to_bits(),
        eos_token_id: vec![9],
    }
}

fn timings() -> PrefillTimings {
    PrefillTimings {
        prefill_us: 10,
        queue_wait_us: 2,
        ttft_us: 12,
        forward_us: 7,
        sampling_us: 1,
        swap_us: 3,
    }
}

fn caches(tokens: usize) -> LayerKvCaches {
    let tensor = Tensor::zeros((1, 1, tokens, 2), DType::F32, &Device::Cpu).unwrap();
    vec![Some((tensor.clone(), tensor.clone())), Some((tensor.clone(), tensor))]
}

fn start(engine: &mut InferenceEngine, id: u64, tokens: Vec<u32>, max_tokens: usize, first: u32) -> bool {
    let prompt_len = tokens.len();
    engine.accept_with_seed(request(id, tokens, max_tokens), id).unwrap();
    let output = engine.begin_step().unwrap();
    assert!(output.is_prefill);
    assert_eq!(output.batch, vec![id]);
    engine.complete_prefill(id, prompt_len, first, timings())
}

fn two_rows() -> InferenceEngine {
    let mut engine = engine(4, MemoryConfig::parse(0, 0));
    start(&mut engine, 1, vec![1, 2, 3], 8, 4);
    start(&mut engine, 2, vec![1, 2, 3, 4, 5], 2, 6);
    engine
}

fn token(token: u32, closed: bool) -> RowOutcome {
    RowOutcome::Token { token, closed }
}

#[test]
fn batch_begins_at_the_last_tokens() {
    let engine = two_rows();
    assert!(engine.decode_fits(&vec![1, 2]));
    let step = engine.begin_decode(vec![1, 2], vec![3, 5], 5);
    assert_eq!(step.positions, vec![3, 5]);
    assert_eq!(step.position_ids, vec![3, 5]);
    assert_eq!(step.last_tokens, vec![4, 6]);
    assert_eq!(step.alive, vec![true, true]);
    assert!(step.has_next_round(4));
}

#[test]
fn round_feeds_every_live_row() {
    let mut engine = two_rows();
    let mut step = engine.begin_decode(vec![1, 2], vec![3, 5], 5);
    engine.advance_round(&mut step, &vec![token(7, false), token(8, false)]);
    assert_eq!(engine.sequences[0].tokens, vec![1, 2, 3, 4, 7]);
    assert_eq!(engine.sequences[1].tokens, vec![1, 2, 3, 4, 5, 6, 8]);
    assert_eq!(step.alive, vec![true, false]);
    assert_eq!(step.pending_finish, vec![2]);
    assert_eq!(step.last_tokens, vec![7, 8]);
    assert_eq!(step.positions, vec![4, 6]);
    assert_eq!((step.rounds_done, step.total_tokens), (1, 2));
    engine.advance_round(&mut step, &vec![token(7, true), token(8, false)]);
    assert_eq!(step.pending_cancel, vec![1]);
    assert_eq!(engine.sequences[1].tokens.len(), 7);
    assert!(!step.has_next_round(4));
    assert_eq!(engine.stats.total_decode_steps.load(), 3);
}

#[test]
fn failed_and_ended_rows_stop() {
    let mut engine = two_rows();
    let mut step = engine.begin_decode(vec![2, 1], vec![5, 3], 5);
    engine.fail_sequence(2, 0);
    engine.advance_round(&mut step, &vec![RowOutcome::Failed, token(9, true)]);
    assert_eq!(step.alive, vec![false, false]);
    assert_eq!(step.pending_finish, vec![1]);
    assert!(step.pending_cancel.is_empty());
}

#[test]
fn rounds_add_up() {
    let mut engine = two_rows();
    engine.sequences[1].max_tokens = 8;
    let before = engine.stats.total_decode_steps.load();
    let mut step = engine.start_decode(&vec![1, 2], &vec![3, 5], 5).unwrap();
    assert_eq!((step.rounds_done, step.total_tokens), (0, 0));
    engine.advance_round(&mut step, &vec![token(7, false), token(8, false)]);
    assert!(step.feeds_from_device());
    engine.advance_round(&mut step, &vec![token(10, false), RowOutcome::Failed]);
    assert!(!step.feeds_from_device());
    engine.advance_round(&mut step, &vec![token(11, false), RowOutcome::Failed]);
    engine.advance_round(&mut step, &vec![token(12, false), RowOutcome::Failed]);
    assert!(!step.has_next_round(4));
    assert_eq!(engine.sequences[0].tokens, vec![1, 2, 3, 4, 7, 10, 11, 12]);
    assert_eq!(engine.sequences[1].tokens, vec![1, 2, 3, 4, 5, 6, 8]);
    assert_eq!((step.rounds_done, step.total_tokens), (4, 5));
    assert_eq!(engine.stats.total_decode_steps.load(), before + 5);
    assert!(engine.room_to_settle(&step, false));
}

#[test]
fn steps_begin_only_in_range() {
    let mut engine = two_rows();
    let step = engine.start_decode(&vec![1, 2], &vec![3, 5], 5).unwrap();
    assert_eq!((step.positions, step.last_tokens), (vec![3, 5], vec![4, 6]));
    assert!(engine.start_decode(&vec![1, 2], &vec![3], 5).is_none());
    assert!(engine.start_decode(&vec![1, 3], &vec![3, 5], 5).is_none());
    assert!(engine.start_decode(&vec![1, 2], &vec![3, 5], u32::MAX as usize - 3).is_none());
    assert!(engine.start_decode(&vec![1, 2], &vec![3, 5], u32::MAX as usize - 4).is_some());
    engine.accept_with_seed(request(4, vec![1], 3), 4).unwrap();
    assert!(engine.start_decode(&vec![4], &vec![1], 1).is_none());
    assert!(engine.room_to_append(&vec![3, 5], 5, 2, &vec![true, true]));
    assert!(!engine.room_to_append(&vec![3, 5], 5, 2, &vec![true]));
    assert!(!engine.room_to_append(&vec![3, 5], usize::MAX, 2, &vec![true, true]));
    assert!(!engine.room_to_append(&vec![3, usize::MAX], 5, 2, &vec![true, true]));
    assert!(engine.room_to_append(&vec![3, usize::MAX], 5, 2, &vec![true, false]));
}

#[test]
fn disconnected_rows_are_left_out() {
    let engine = two_rows();
    let (live, gone) = engine.live_batch(&vec![1, 2, 3], &vec![true, false, false]);
    assert_eq!(live, vec![2]);
    assert_eq!(gone, vec![1, 3]);
}

#[test]
fn active_sequence_is_flushed() {
    let mut engine = two_rows();
    engine.swap_in_loaded(1, 10);
    engine.flush_active(caches(4));
    assert_eq!(engine.active, None);
    assert!(engine.sequences[0].any_cache());
    assert_eq!(engine.batch_caches(&vec![1, 2])[0][1].as_ref().unwrap().0.dims(), &[1, 1, 4, 2]);
    engine.drop_batch_caches(&vec![1]);
    assert!(!engine.sequences[0].any_cache());
}

#[test]
fn widths_are_rounded_for_graphs() {
    let mut engine = two_rows();
    assert_eq!(engine.cache_widths(5), (9, 16));
    engine.settings.graph_width_bucket = false;
    assert_eq!(engine.cache_widths(5), (9, 9));
}

fn extract_of(totals: Vec<Option<usize>>) -> BatchedKvExtract {
    BatchedKvExtract { per_layer: vec![None, None], max_total_len: 8, per_row_totals: totals }
}

#[test]
fn step_leaves_its_pages_to_the_next() {
    let mut engine = two_rows();
    let mut step = engine.begin_decode(vec![1, 2], vec![3, 5], 5);
    engine.sequences[1].max_tokens = 8;
    engine.advance_round(&mut step, &vec![token(7, false), token(8, false)]);
    assert!(engine.room_for_rows(&step.positions, 0, &step.alive));
    engine.settle_pages(&step, extract_of(vec![Some(4), Some(6)]), false, 0);
    assert_eq!(engine.sequences[0].paged_kv.token_len(), 4);
    assert_eq!(engine.sequences[1].paged_kv.token_len(), 6);
    let pending = engine.take_pending(&vec![1, 2]).unwrap();
    assert_eq!(pending.per_row_totals, vec![Some(4), Some(6)]);
    assert!(engine.pending_batched_kv_extract.is_none());
    assert!(engine.take_pending(&vec![1, 2]).is_none());
}

#[test]
fn stale_pages_are_dropped() {
    let mut engine = two_rows();
    let step = engine.begin_decode(vec![1, 2], vec![3, 5], 5);
    engine.settle_pages(&step, extract_of(vec![Some(3), Some(5)]), true, 0);
    assert!(engine.take_pending(&vec![2, 1]).is_none());
    assert_eq!(engine.stats.total_paged_kv_batched_setup_pending_batch_mismatch.load(), 1);
    engine.settle_pages(&step, extract_of(vec![Some(3), Some(4)]), true, 0);
    assert!(engine.take_pending(&vec![1, 2]).is_none());
    assert_eq!(engine.stats.total_paged_kv_batched_setup_pending_token_mismatch.load(), 1);
}

#[test]
fn rows_keep_their_caches() {
    let mut engine = two_rows();
    let mut step = engine.begin_decode(vec![1, 2], vec![3, 5], 5);
    engine.advance_round(&mut step, &vec![token(7, false), token(8, false)]);
    engine.settle_rows(&step, &vec![caches(4), caches(6)], false, 0);
    assert_eq!(engine.sequences[0].kv_caches[0].as_ref().unwrap().0.dims(), &[1, 1, 4, 2]);
    assert!(!engine.sequences[1].any_cache());
    assert_eq!(engine.sequences[0].paged_kv.token_len(), 4);
    assert_eq!(engine.sequences[1].paged_kv.token_len(), 5);
    assert_eq!(engine.tracked_kv_bytes, 4 * 4 * 2 * 4);
}

#[test]
fn setup_falls_back_to_caches() {
    let mut engine = two_rows();
    assert!(engine.plan_row_setup(&vec![1, 2]).is_empty());
    assert_eq!(engine.stats.total_paged_kv_batched_setup_fallback_regather_unavailable.load(), 1);
    engine.set_caches(1, caches(3));
    assert_eq!(engine.plan_row_setup(&vec![1, 2]), vec![1]);
    assert_eq!(engine.stats.total_paged_kv_batched_setup_fallback_per_seq_cache.load(), 1);
    engine.record_regather_error();
    engine.record_batched_setup(true, 5);
    engine.record_batched_setup(false, 6);
    engine.record_batched_layers(BatchDecodeSetupTimings {
        batched_ragged_rows: 3,
        ..BatchDecodeSetupTimings::default()
    });
    assert_eq!(engine.stats.total_paged_kv_batched_setup_fallback_regather_error.load(), 1);
    assert_eq!(engine.stats.total_paged_kv_batched_setup_us.load(), 11);
    assert_eq!(engine.stats.total_paged_kv_batched_setup_hits.load(), 1);
    assert_eq!(engine.stats.total_paged_kv_batched_setup_ragged_rows.load(), 3);
    assert!(engine.plan_regather(&vec![1, 2]).is_none());
}

#[test]
fn tokens_stay_on_the_device_while_all_rows_live() {
    let mut engine = two_rows();
    let mut step = engine.begin_decode(vec![1, 2], vec![3, 5], 5);
    let first = engine.plan_decode_round(&step, false);
    assert_eq!((first.mask_width, first.active_rows), (6, 2));
    assert!(!first.device_input && !first.fixed_width && first.append_offset.is_none());
    assert!(engine.plan_decode_round(&step, true).device_input);
    assert_eq!(engine.stats.total_batch_decode_device_token_input_tokens.load(), 2);
    step.alive[0] = false;
    assert!(!engine.plan_decode_round(&step, true).device_input);
    assert!(!engine.appends_before_next_round(&step));
}

fn graph_planner() -> CudaGraphDecodePlanner {
    CudaGraphDecodePlanner {
        enabled: true,
        fixed_width_decode: true,
        capture_runtime: true,
        capture_sampling: true,
        max_replays: 1,
        buckets: vec![2],
    }
}

#[test]
fn fixed_width_rounds_without_a_graph_are_counted() {
    let mut engine = two_rows();
    engine.settings.cuda_graph_decode = graph_planner();
    let step = engine.begin_decode(vec![1, 2], vec![3, 5], 5);
    let round = engine.plan_decode_round(&step, true);
    assert!(round.fixed_width && !round.device_input);
    assert_eq!(round.append_offset, Some(5));
    let planned =
        engine.plan_graph_round(&step, &round, &Device::Cpu, DType::BF16, true, 16);
    assert_eq!(planned, CudaGraphRound::Eager);
    assert_eq!(engine.stats.total_cuda_graph_decode_miss_device.load(), 1);
    assert_eq!(engine.stats.total_cuda_graph_decode_fallbacks.load(), 2);
}

#[test]
fn graphs_are_kept_dropped_and_given_up() {
    let mut engine = two_rows();
    engine.settings.cuda_graph_decode = graph_planner();
    let key = CudaGraphDecodeKey { bucket: 2, fixed_cache_width: 16, has_mask: true };
    engine.graph_captured(key, true, Some(2), 2);
    assert_eq!(engine.stats.total_cuda_graph_decode_capture_successes.load(), 1);
    let enough = GraphBufferCapacities { input_ids: 2, position_ids: 2, append_offset: 1, mask: 32 };
    engine.prepare_graph_buffers(enough, 2, 16);
    assert_eq!(engine.graphs.entries.len(), 1);
    engine.prepare_graph_buffers(enough, 2, 17);
    assert!(engine.graphs.entries.is_empty());
    engine.graph_captured(key, true, Some(2), 2);
    engine.graph_replayed(key, false, 2);
    assert_eq!(engine.graphs.poisoned, vec![key]);
    assert_eq!(engine.stats.total_cuda_graph_decode_fallback_tokens.load(), 2);
    engine.sync_workspace(2);
    assert!(engine.graphs.poisoned.is_empty());
    engine.graph_captured(key, false, None, 2);
    assert_eq!(engine.stats.total_cuda_graph_decode_capture_failures.load(), 1);
    engine.graph_replayed(key, true, 2);
    assert_eq!(engine.stats.total_cuda_graph_decode_replay_tokens.load(), 2);
    assert_eq!(graph_planner().captured_sample_batch(Some(0)), None);
    assert_eq!(graph_planner().captured_sample_batch(Some(2)), Some(2));
}

#[test]
fn greedy_rows_are_told_apart() {
    let mut engine = two_rows();
    let mut step = engine.begin_decode(vec![1, 2], vec![3, 5], 5);
    assert!(engine.is_batch_greedy(&step));
    assert!(engine.can_use_captured_tokens(&step, Some(2)));
    assert!(!engine.can_use_captured_tokens(&step, Some(1)));
    assert!(!engine.can_use_captured_tokens(&step, None));
    engine.sequences[0].repetition_penalty = 1.5f32.to_bits();
    assert!(engine.is_batch_greedy(&step));
    assert!(!engine.can_use_captured_tokens(&step, Some(2)));
    engine.sequences[0].temperature = Some(0.7f64.to_bits());
    assert!(!engine.is_batch_greedy(&step));
    assert_eq!(engine.active_non_greedy(&step), 1);
    step.alive[0] = false;
    assert!(engine.is_batch_greedy(&step));
    assert_eq!(engine.active_non_greedy(&step), 0);
}

#[test]
fn sampling_of_batches_is_counted() {
    let mut engine = two_rows();
    engine.record_batch_greedy(BatchGreedyMode::CudaBf16NoPenalty, 2);
    engine.record_batch_greedy(BatchGreedyMode::CudaBf16Penalty, 3);
    engine.record_batch_greedy(BatchGreedyMode::TensorFallback, 4);
    engine.record_greedy_fallback();
    engine.record_batch_non_greedy(true, 5);
    engine.record_batch_non_greedy(false, 6);
    engine.record_paged_attention(2, 3, 4);
    let stats = &engine.stats;
    assert_eq!(stats.total_sampling_batch_greedy_tokens.load(), 9);
    assert_eq!(stats.total_sampling_batch_greedy_cuda_plain_tokens.load(), 2);
    assert_eq!(stats.total_sampling_batch_greedy_cuda_penalty_tokens.load(), 3);
    assert_eq!(stats.total_sampling_batch_greedy_tensor_fallback_calls.load(), 1);
    assert_eq!(stats.total_sampling_batch_greedy_fallbacks.load(), 1);
    assert_eq!(stats.total_sampling_batch_non_greedy_tokens.load(), 11);
    assert_eq!(stats.total_sampling_batch_non_greedy_cuda_bf16_tokens.load(), 5);
    assert_eq!(stats.total_sampling_batch_non_greedy_fallback_tokens.load(), 6);
    assert_eq!(stats.total_paged_kv_attention_layer_fallbacks.load(), 4);
}

#[test]
fn batched_step_is_counted() {
    let mut engine = two_rows();
    let timings = BatchDecodeTimings {
        decode_us: 1,
        setup_us: 2,
        mask_us: 3,
        forward_us: 4,
        sampling_us: 5,
        extract_us: 6,
        extract_state_replace_us: 7,
    };
    let setup = BatchDecodeSetupTimings { pad_stack_us: 8, ..BatchDecodeSetupTimings::default() };
    let extract = BatchDecodeExtractTimings { narrow_us: 9, ..BatchDecodeExtractTimings::default() };
    engine.record_batch_decode(3, timings, setup, extract);
    assert_eq!(engine.stats.total_batch_decode_tokens.load(), 3);
    assert_eq!(engine.stats.total_batch_decode_setup_pad_stack_time_us.load(), 8);
    assert_eq!(engine.stats.total_batch_decode_extract_narrow_time_us.load(), 9);
    assert_eq!(engine.stats.total_batch_decode_extract_state_replace_time_us.load(), 7);
}

#[test]
fn decoded_tokens_are_copied_into_their_pages() {
    let mut engine = two_rows();
    let plan = engine.prepare_append(&vec![1, 2], &vec![3, 5], 5, 2, &vec![true, false]).unwrap();
    assert_eq!(engine.sequences[0].paged_kv.token_len(), 5);
    assert_eq!(plan.row_indices, vec![0, 0]);
    assert_eq!(plan.source_token_indices, vec![5, 6]);
    assert_eq!(plan.token_offsets, vec![3, 0]);
    let past = engine.prepare_import(&vec![1, 2], &vec![3, 5], 5).unwrap();
    assert_eq!(past.entries(), 8);
    assert_eq!(past.source_token_indices, vec![2, 3, 4, 0, 1, 2, 3, 4]);
    let mismatch = engine.prepare_import(&vec![1, 2], &vec![3], 5);
    assert!(matches!(mismatch, Err(PageCopyError::MetadataMismatch { batch: 2, kv_lens: 1, keep: 2 })));
    let missing = engine.prepare_append(&vec![1, 7], &vec![3, 5], 5, 2, &vec![true, true]);
    assert!(matches!(missing, Err(PageCopyError::MissingSequence { id: 7 })));
    let too_long = engine.build_paged_kv_batch_past_import_plan(&vec![1], &vec![3], 2);
    assert!(matches!(too_long, Err(PageCopyError::RowTooLong { row: 0, kv_len: 3, width: 2 })));
    assert!(!engine.begin_append(&vec![1], &vec![3], 1, &vec![true], 0));
    assert!(!engine.begin_import(0));
}

#[test]
fn rows_come_out_of_a_batch_from_the_right() {
    let values: Vec<f32> = (0..12).map(|v| v as f32).collect();
    let tensor = Tensor::from_vec(values, (2, 1, 3, 2), &Device::Cpu).unwrap();
    let extract = BatchedKvExtract {
        per_layer: vec![Some((tensor.clone(), tensor))],
        max_total_len: 3,
        per_row_totals: vec![Some(2), None],
    };
    let rows = extract.materialize_per_row(2).unwrap();
    let (key, _) = rows[0][0].as_ref().unwrap();
    assert_eq!(key.dims(), &[1, 1, 2, 2]);
    assert_eq!(key.flatten_all().unwrap().to_vec1::<f32>().unwrap(), vec![2.0, 3.0, 4.0, 5.0]);
    assert!(rows[0][1].is_none() && rows[1][0].is_none());
    let mut engine = two_rows();
    engine.adopt_rows(&vec![1, 2], &extract).unwrap();
    assert!(engine.sequences[0].any_cache() && !engine.sequences[1].any_cache());
    assert_eq!(InferenceEngine::rows_to_materialize(&vec![1, 2], &vec![1, 5]), vec![2]);
}

#[test]
fn cache_lengths_must_agree() {
    assert_eq!(sequence_kv_cache_len(0, &caches(4)).unwrap(), 4);
    assert_eq!(sequence_kv_cache_len(0, &vec![None, None]).unwrap(), 0);
    let mut uneven = caches(4);
    uneven[1] = caches(3)[1].clone();
    assert!(sequence_kv_cache_len(0, &uneven).is_err());
    let flat = Tensor::zeros((2, 2), DType::F32, &Device::Cpu).unwrap();
    let broken: Result<usize, KvCacheLenError> = sequence_kv_cache_len(0, &vec![Some((flat.clone(), flat))]);
    assert!(broken.is_err());
}

#[test]
fn shadow_copy_goes_through_pages_and_back() {
    let engine = two_rows();
    let rows = vec![caches(3), caches(5)];
    let plan = engine.plan_shadow(&vec![1, 2], &rows).unwrap();
    assert_eq!((plan.kv_lens.clone(), plan.max_len, plan.layers), (vec![3, 5], 5, 2));
    assert!(engine.can_shadow(&vec![1, 2], plan.max_len));
    let values = vec![(0..6).collect::<Vec<u32>>(), (10..20).collect::<Vec<u32>>()];
    let checked = engine.shadow_plane(&vec![1, 2], &plan, 0, PagedKvPlane::Key, &values);
    assert_eq!(checked.unwrap(), 2 * 5 * 2);
    let short = engine.plan_shadow(&vec![1, 2], &vec![caches(3)]);
    assert!(matches!(short, Err(ShadowError::CountMismatch { batch: 2, caches: 1 })));
    let stale = engine.plan_shadow(&vec![1, 2], &vec![caches(2), caches(5)]);
    assert!(matches!(stale, Err(ShadowError::TokenLenMismatch { row: 0, paged: 3, cache: 2 })));
    let differ = ensure_shadow_values_match(1, PagedKvPlane::Value, &[1, 2], &[1, 3]);
    assert!(matches!(differ, Err(ShadowError::ValueMismatch { layer: 1, index: 1, .. })));
    assert_eq!(ensure_shadow_values_match(1, PagedKvPlane::Value, &[1], &[1]).unwrap(), 1);
}

#[test]
fn all_layers_are_compared() {
    let mut engine = two_rows();
    let batch = vec![1, 2];
    let rows = vec![caches(3), caches(5)];
    let report = engine.validate_paged_kv_shadow_gather(&batch, &rows).unwrap();
    assert_eq!((report.layers, report.sequences, report.values_compared), (2, 2, 80));
    assert!(engine.maybe_validate_paged_kv_shadow_gather(&batch, &rows).is_none());
    engine.settings.paged_kv_shadow_validate = true;
    engine.settings.paged_kv_shadow_max_layers = 1;
    let report = engine.maybe_validate_paged_kv_shadow_gather(&batch, &rows).unwrap().unwrap();
    assert_eq!((report.layers, report.values_compared), (1, 40));
    let mut gap = rows.clone();
    gap[1][0] = None;
    assert!(matches!(
        engine.validate_paged_kv_shadow_gather(&batch, &gap),
        Err(ShadowError::MissingLayer { row: 1, cache_len: 5, layer: 0 })
    ));
    let wide = Tensor::zeros((1, 2, 3, 2), DType::F32, &Device::Cpu).unwrap();
    gap[1] = caches(5);
    gap[0][0] = Some((caches(3)[0].as_ref().unwrap().0.clone(), wide));
    assert!(matches!(
        engine.validate_paged_kv_shadow_gather(&batch, &gap),
        Err(ShadowError::ShapeMismatch { row: 0, layer: 0, plane: PagedKvPlane::Value })
    ));
}

#[test]
fn values_are_read_as_singles() {
    assert_eq!(read_words(&[1, 0, 0, 0, 0, 2, 3, 4, 9]), vec![1, 0x0403_0200]);
    let tensor = Tensor::new(&[[1.0f64, -2.5], [0.25, 3.0]], &Device::Cpu).unwrap();
    let bits: Vec<u32> = [1.0f32, -2.5, 0.25, 3.0].iter().map(|v| v.to_bits()).collect();
    assert_eq!(single_values(&tensor).unwrap(), bits);
    let column = tensor.narrow(1, 1, 1).unwrap();
    assert_eq!(single_values(&column).unwrap(), vec![(-2.5f32).to_bits(), 3.0f32.to_bits()]);
}

#[test]
fn setup_takes_what_is_there() {
    let mut engine = two_rows();
    let batch = vec![1, 2];
    assert!(matches!(engine.next_setup(&batch, SetupEvent::Begin), SetupAction::Gather));
    let gathered = SetupEvent::Gathered { extract: Some(extract_of(vec![Some(3), Some(5)])) };
    assert!(matches!(
        engine.next_setup(&batch, gathered),
        SetupAction::LoadPages { regathered: true, .. }
    ));
    let none = || SetupEvent::Gathered { extract: None };
    assert!(matches!(engine.next_setup(&batch, none()), SetupAction::LoadRows));
    assert_eq!(
        engine.stats.total_paged_kv_batched_setup_fallback_regather_unavailable.load(),
        1
    );
    engine.set_caches(1, caches(3));
    match engine.next_setup(&batch, none()) {
        SetupAction::Materialize { rows } => assert_eq!(rows, vec![1]),
        other => panic!("{other:?}"),
    }
    let filled = SetupEvent::Materialized { rows: vec![1], ok: true };
    assert!(matches!(engine.next_setup(&batch, filled), SetupAction::LoadRows));
    match engine.next_setup(&batch, SetupEvent::Materialized { rows: vec![1], ok: false }) {
        SetupAction::Fail { rows } => assert_eq!(rows, vec![1]),
        other => panic!("{other:?}"),
    }
    assert!(matches!(
        engine.next_setup(&batch, SetupEvent::GatherFailed),
        SetupAction::LoadRows
    ));
    assert_eq!(engine.stats.total_paged_kv_batched_setup_fallback_regather_error.load(), 1);
}

#[test]
fn sampling_falls_back_step_by_step() {
    let mut engine = two_rows();
    let step = engine.begin_decode(vec![1, 2], vec![3, 5], 5);
    let begin = |captured| SampleEvent::Begin { captured };
    let mut next = |event| engine.next_sampling(&step, event, 2);
    assert_eq!(next(begin(Some(2))), SampleAction::ReadCaptured { rows: 2 });
    assert_eq!(next(begin(Some(1))), SampleAction::GreedyBatch);
    assert_eq!(next(SampleEvent::Captured { ok: true }), SampleAction::Take);
    assert_eq!(next(SampleEvent::Captured { ok: false }), SampleAction::GreedyBatch);
    let mode = Some(BatchGreedyMode::TensorFallback);
    assert_eq!(next(SampleEvent::Greedy { mode }), SampleAction::Take);
    assert_eq!(next(SampleEvent::Greedy { mode: None }), SampleAction::Prepare);
    assert_eq!(next(SampleEvent::Prepared), SampleAction::Rows);
    assert_eq!(engine.stats.total_sampling_batch_greedy_calls.load(), 2);
    assert_eq!(engine.stats.total_sampling_batch_greedy_fallbacks.load(), 1);
    assert_eq!(engine.stats.total_sampling_batch_non_greedy_calls.load(), 0);
    engine.sequences[1].temperature = None;
    let mut next = |event| engine.next_sampling(&step, event, 2);
    assert_eq!(next(begin(Some(2))), SampleAction::DeviceBatch);
    assert_eq!(next(SampleEvent::Drawn { ok: true }), SampleAction::Take);
    assert_eq!(next(SampleEvent::Drawn { ok: false }), SampleAction::Prepare);
    assert_eq!(next(SampleEvent::Prepared), SampleAction::Rows);
    assert_eq!(engine.stats.total_sampling_batch_non_greedy_tokens.load(), 2);
    assert_eq!(engine.stats.total_sampling_batch_non_greedy_cuda_bf16_tokens.load(), 1);
    assert_eq!(engine.stats.total_sampling_batch_non_greedy_fallback_tokens.load(), 1);
}

#[test]
fn rows_settle_where_they_can() {
    let mut engine = two_rows();
    let mut step = engine.begin_decode(vec![1, 2], vec![3, 5], 5);
    assert_eq!(engine.plan_settle(&step, true), SettlePlan::Nothing);
    engine.advance_round(&mut step, &vec![token(7, false), token(8, false)]);
    assert_eq!(engine.plan_settle(&step, false), SettlePlan::RowsOfBuffers);
    assert_eq!(engine.plan_settle(&step, true), SettlePlan::RowsOfPages);
    engine.settings.paged_kv_batched_setup = true;
    assert_eq!(engine.plan_settle(&step, true), SettlePlan::Pages);
}

#[test]
fn batches_outside_the_buckets_stay_on_the_eager_path() {
    let mut engine = two_rows();
    engine.settings.cuda_graph_decode = graph_planner();
    engine.settings.cuda_graph_decode.buckets = vec![4];
    let key = CudaGraphDecodeKey { bucket: 4, fixed_cache_width: 16, has_mask: true };
    engine.graph_captured(key, true, Some(4), 4);
    let none = GraphBufferCapacities { input_ids: 0, position_ids: 0, append_offset: 0, mask: 0 };
    engine.prepare_graph_buffers(none, 2, 16);
    assert_eq!(engine.graphs.entries.len(), 1);
    let step = engine.begin_decode(vec![1, 2], vec![3, 5], 5);
    let round = engine.plan_decode_round(&step, true);
    assert!(!round.fixed_width && round.device_input && round.append_offset.is_none());
}
