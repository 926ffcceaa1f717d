//! Requests on their way through the engine.
use candle_core::{DType, Device, Tensor};
use crane_oai::cuda_graph::CudaGraphEnv;
use crane_oai::engine::caches::{SwapInNext, SwapInPlan};
use crane_oai::engine::config::{EngineEnv, ModelTraits};
use crane_oai::engine::prefill::{PrefillAction, PrefillEvent, PrefillRun};
use crane_oai::engine::sequential::{
    SequentialAction, SequentialEvent, SequentialRun, TurnStage,
};
use crane_oai::engine::lifecycle::{EngineRequest, PromptTooLong};
use crane_oai::engine::scheduler::{Scheduler, SchedulerOutput};
use crane_oai::engine::sequence::{FinishReason, SequenceStatus};
use crane_oai::engine::state::InferenceEngine;
use crane_oai::engine::steps::{
    idle_step, wait_batch_next, StepKind, WaitBatch, WaitBatchNext,
};
use crane_oai::engine::turns::{PrefillTimings, SequentialTimings};
use crane_oai::memory::MemoryConfig;
use crane_oai::paged_kv::PagedKvLayout;
use crane_oai::tensors::LayerKvCaches;

fn layout() -> PagedKvLayout {
    PagedKvLayout { num_layers: 2, num_kv_heads: 1, head_dim: 2, dtype_size_bytes: 4 }
}

fn model(supports_kv_swap: bool) -> ModelTraits {
    ModelTraits {
        num_layers: 2,
        supports_kv_swap,
        supports_batch_decode: true,
        device: Device::Cpu,
        dtype: DType::F32,
        kv_layout: Some(layout()),
        workspace_generation: 1,
    }
}

fn env() -> EngineEnv<'static> {
    EngineEnv {
        paged_kv_block_size: Some("4"),
        paged_kv_shadow_validate: None,
        paged_kv_shadow_max_layers: None,
        paged_kv_native_append: None,
        paged_kv_pressure_reserve_mb: None,
        paged_kv_gather_extract: None,
        paged_kv_attention: None,
        paged_kv_attention_min_active_rows: None,
        paged_kv_attention_min_seq_len: None,
        paged_kv_batched_setup: None,
        idle_cuda_mem_trim_secs: None,
        profile: None,
        sched_wait_batch_us: Some("500"),
        sched_wait_batch_target: None,
        sched_wait_batch_poll_us: None,
        disable_gpu_mem_hard_check: None,
        decode_device_token_input: None,
        graph_width_bucket: None,
        graph_no_reuse: None,
        graph: CudaGraphEnv {
            enabled: None,
            buckets: None,
            fixed_width: None,
            capture: None,
            capture_sampling: None,
            max_replays: None,
        },
    }
}

fn engine(max_concurrent: usize, memory: MemoryConfig) -> InferenceEngine {
    InferenceEngine::new(&model(true), max_concurrent, 4, memory, &env())
}

fn request(id: u64, tokens: Vec<u32>, max_tokens: usize) -> EngineRequest {
    EngineRequest {
        id,
        request_id: format!("request-{id}"),
        tokens,
        max_tokens,
        temperature: Some(0.0f64.to_bits()),
        top_p: None,
        top_k: None,
        repetition_penalty: 1.0f32.to_bits(),
        eos_token_id: vec![9],
    }
}

fn timings() -> PrefillTimings {
    PrefillTimings {
        prefill_us: 10,
        queue_wait_us: 2,
        ttft_us: 12,
        forward_us: 7,
        sampling_us: 1,
        swap_us: 3,
    }
}

fn caches(tokens: usize) -> LayerKvCaches {
    let tensor = Tensor::zeros((1, 1, tokens, 2), DType::F32, &Device::Cpu).unwrap();
    vec![Some((tensor.clone(), tensor.clone())), Some((tensor.clone(), tensor))]
}

fn start(engine: &mut InferenceEngine, id: u64, tokens: Vec<u32>, max_tokens: usize, first: u32) -> bool {
    let prompt_len = tokens.len();
    engine.accept_with_seed(request(id, tokens, max_tokens), id).unwrap();
    let output = engine.begin_step().unwrap();
    assert!(output.is_prefill);
    assert_eq!(output.batch, vec![id]);
    engine.complete_prefill(id, prompt_len, first, timings())
}

#[test]
fn engine_follows_model_and_environment() {
    let engine = engine(3, MemoryConfig::parse(0, 0));
    assert_eq!(engine.settings.paged_kv_block_size, 4);
    assert_eq!(engine.settings.max_concurrent, 3);
    assert_eq!(engine.settings.sched_wait_batch_us, 500);
    assert_eq!(engine.settings.idle_cuda_mem_trim_secs, Some(120));
    assert!(engine.paged_kv_gpu_store.is_none());
    let single = InferenceEngine::new(&model(false), 3, 0, MemoryConfig::parse(0, 0), &env());
    assert_eq!(single.settings.max_concurrent, 1);
    assert_eq!(single.settings.decode_tokens_per_seq, 1);
}

#[test]
fn long_prompts_are_refused() {
    let mut engine = engine(2, MemoryConfig::parse(4, 0));
    let refused = engine.accept_request(request(1, vec![1; 5], 3));
    let error = PromptTooLong { prompt_len: 5, max_seq_len: 4 };
    assert_eq!(refused, Err(error));
    assert_eq!(error.message(), "Prompt length (5) exceeds server max_seq_len (4)");
    assert_eq!(engine.stats.failed_requests.load(), 1);
    assert_eq!(engine.stats.total_requests.load(), 0);
    assert!(engine.sequences.is_empty());
}

#[test]
fn accepted_requests_wait_in_order() {
    let mut engine = engine(2, MemoryConfig::parse(4, 0));
    engine.accept_with_seed(request(1, vec![1; 3], 3), 77).unwrap();
    engine.accept_request(request(2, vec![1; 4], 3)).unwrap();
    assert_eq!(engine.sequences[0].max_tokens, 1);
    assert_eq!(engine.sequences[0].sampling_seed, 77);
    assert_eq!(engine.sequences[0].repeat_last_n, 64);
    assert_eq!(engine.sequences[1].max_tokens, 0);
    assert!(engine.sequences[0].status == SequenceStatus::Waiting);
    assert_eq!(engine.stats.total_prompt_tokens.load(), 7);
    assert_eq!(engine.begin_step().unwrap().batch, vec![1]);
    assert_eq!(engine.begin_step().unwrap().batch, vec![2]);
}

#[test]
fn none_overtakes_one_that_waits() {
    let mut scheduler = Scheduler::new(2);
    scheduler.add(1);
    scheduler.add(2);
    scheduler.add(3);
    assert_eq!(scheduler.schedule().unwrap().batch, vec![1]);
    scheduler.promote_to_running(1);
    assert_eq!(scheduler.schedule().unwrap().batch, vec![2]);
    scheduler.defer(2);
    scheduler.preempt(1);
    assert_eq!(scheduler.waiting, vec![2, 3, 1]);
    assert_eq!(scheduler.schedule().unwrap().batch, vec![2]);
    scheduler.promote_to_running(2);
    scheduler.remove(3);
    scheduler.add(4);
    let output = scheduler.schedule().unwrap();
    assert!(output.is_prefill);
    assert_eq!(output.batch, vec![1]);
    scheduler.promote_to_running(1);
    let output = scheduler.schedule().unwrap();
    assert!(!output.is_prefill);
    assert_eq!(output.batch, vec![2, 1]);
    assert_eq!(scheduler.waiting, vec![4]);
}

#[test]
fn prefill_is_fed_the_prompt_and_covers_it() {
    let mut engine = engine(2, MemoryConfig::parse(0, 0));
    engine.accept_with_seed(request(1, vec![5, 6, 7, 8, 2], 9), 1).unwrap();
    let input = engine.step_input(1).unwrap();
    assert_eq!((input.input_ids, input.start_pos), (vec![5, 6, 7, 8, 2], 0));
    engine.begin_step().unwrap();
    assert!(!engine.complete_prefill(1, 5, 3, timings()));
    assert_eq!(engine.scheduler.running, vec![1]);
    assert_eq!(engine.sequences[0].tokens, vec![5, 6, 7, 8, 2, 3]);
    assert_eq!(engine.sequences[0].paged_kv.token_len(), 5);
    assert_eq!(engine.stats.total_prefill_steps.load(), 1);
    assert_eq!(engine.stats.total_prefill_swap_time_us.load(), 3);
    let next = engine.step_input(1).unwrap();
    assert_eq!((next.input_ids, next.start_pos), (vec![3], 5));
    assert!(engine.step_input(2).is_none());
}

#[test]
fn sequence_ends_at_its_end_token_or_limit() {
    let mut engine = engine(2, MemoryConfig::parse(0, 0));
    assert!(!start(&mut engine, 1, vec![1, 2], 3, 4));
    assert!(!engine.complete_decode(1, 5));
    assert!(engine.complete_decode(1, 9));
    let report = engine.report_with(1, Some("text".into())).unwrap();
    assert_eq!((report.prompt_tokens, report.completion_tokens), (2, 3));
    assert!(report.finish_reason == FinishReason::Stop);
    assert_eq!(report.finish_reason.as_str(), "stop");
    assert_eq!(report.full_text.as_deref(), Some("text"));
    assert_eq!(engine.generated_tokens(1), Some(vec![4, 5, 9]));
    engine.finish_sequence(1, 0);
    assert!(engine.sequences.is_empty());
    assert_eq!(engine.stats.completed_requests.load(), 1);
    assert_eq!(engine.stats.total_completion_tokens.load(), 3);
    assert_eq!(engine.paged_kv_allocator.snapshot().live_pages, 0);

    assert!(start(&mut engine, 2, vec![1], 1, 4));
    let cut = engine.report_with(2, None).unwrap();
    assert_eq!(cut.finish_reason.as_str(), "length");
}

#[test]
fn failed_and_cancelled_sequences_leave_nothing() {
    let mut engine = engine(2, MemoryConfig::parse(0, 0));
    start(&mut engine, 1, vec![1, 2], 8, 4);
    start(&mut engine, 2, vec![1, 2], 8, 4);
    engine.fail_sequence(1, 0);
    engine.cancel_sequence(2, 0);
    engine.cancel_sequence(3, 0);
    assert_eq!(engine.stats.failed_requests.load(), 1);
    assert_eq!(engine.stats.cancelled_requests.load(), 2);
    assert!(engine.sequences.is_empty() && engine.scheduler.running.is_empty());
    assert!(engine.begin_step().is_none());
}

#[test]
fn steps_are_dispatched_by_their_batch() {
    let engine = engine(2, MemoryConfig::parse(0, 0));
    let output = |batch: Vec<u64>, is_prefill| SchedulerOutput { batch, is_prefill };
    assert!(matches!(engine.dispatch(output(vec![1], true)), StepKind::Prefill { id: 1 }));
    assert!(matches!(engine.dispatch(output(vec![1, 2], false)), StepKind::DecodeBatch { .. }));
    assert!(matches!(engine.dispatch(output(vec![1], false)), StepKind::DecodeSequential { .. }));
}

#[test]
fn every_fiftieth_step_is_reported() {
    let mut engine = engine(2, MemoryConfig::parse(0, 0));
    for step in 1..=100u64 {
        assert_eq!(engine.end_step(), step % 50 == 0);
    }
}

#[test]
fn bytes_of_all_sequences_are_counted() {
    let mut engine = engine(2, MemoryConfig::parse(0, 0));
    start(&mut engine, 1, vec![1, 2], 8, 4);
    start(&mut engine, 2, vec![1, 2], 8, 4);
    engine.set_caches(1, caches(3));
    engine.recount_kv_bytes(0);
    assert_eq!(engine.tracked_kv_bytes, 4 * 3 * 2 * 4);
    assert_eq!(engine.stats.tracked_kv_cache_bytes.load(), 96);
    engine.recount_kv_bytes(0);
    assert_eq!(engine.tracked_kv_bytes, 96);
}

#[test]
fn sequences_are_swapped_in_and_out() {
    let mut engine = engine(2, MemoryConfig::parse(0, 0));
    start(&mut engine, 1, vec![1, 2], 8, 4);
    start(&mut engine, 2, vec![1, 2], 8, 4);
    engine.set_caches(1, caches(2));
    assert!(matches!(engine.plan_swap_in(1), SwapInPlan::Exchange { save: None }));
    assert!(matches!(engine.swap_in_save(1, vec![]), SwapInNext::Load));
    engine.swap_in_loaded(1, 40);
    assert_eq!(engine.active, Some(1));
    assert_eq!(engine.tracked_kv_bytes, 40);
    assert_eq!(engine.stats.total_kv_swap_count.load(), 1);
    assert!(matches!(engine.plan_swap_in(1), SwapInPlan::Active));
    assert!(matches!(engine.plan_swap_in(2), SwapInPlan::Exchange { save: Some(1) }));
    assert!(matches!(engine.swap_in_save(2, caches(5)), SwapInNext::Gather));
    assert_eq!(engine.caches_to_load(1)[0].as_ref().unwrap().0.dims(), &[1, 1, 5, 2]);
    assert!(engine.caches_to_load(2).iter().all(|cache| cache.is_none()));
}

#[test]
fn largest_sequence_is_evicted_and_asked_again() {
    let mut engine = engine(4, MemoryConfig::parse(0, 6 * 100));
    start(&mut engine, 1, vec![1, 2], 8, 4);
    start(&mut engine, 2, vec![1, 2], 8, 4);
    engine.set_caches(1, caches(2));
    engine.set_caches(2, caches(5));
    engine.recount_kv_bytes(0);
    assert_eq!(engine.tracked_kv_bytes, 64 + 160);
    assert!(engine.is_over_kv_budget(0));
    let victims: Vec<u64> = engine.evict_if_needed().into_iter().map(|victim| victim.id).collect();
    assert_eq!(victims, vec![2]);
    assert_eq!(engine.scheduler.running, vec![1]);
    assert_eq!(engine.scheduler.effective_max_running, Some(1));
    assert_eq!(engine.eviction_cooldown, 5);
    assert_eq!(engine.sequences.len(), 2);
    assert!(engine.tracked_kv_bytes <= 100);
    assert!(!engine.is_over_kv_budget(700));
}

#[test]
fn blocked_prefill_waits_while_others_run() {
    let mut engine = engine(4, MemoryConfig::parse(0, 6));
    start(&mut engine, 1, vec![1, 2], 8, 4);
    engine.accept_with_seed(request(2, vec![1, 2], 8), 1).unwrap();
    let output = engine.begin_step().unwrap();
    assert!(output.is_prefill);
    let (next, victims) = engine.make_room(output, 7);
    assert_eq!(victims.len(), 0);
    assert!(next.is_prefill);

    engine.set_caches(1, caches(2));
    engine.recount_kv_bytes(0);
    let (next, victims) = engine.make_room(next, 0);
    assert_eq!(victims.len(), 1);
    assert!(next.is_prefill);
    assert_eq!(next.batch, vec![2]);
}

#[test]
fn eviction_cap_is_lifted_by_cleanup() {
    let mut engine = engine(4, MemoryConfig::parse(0, 0));
    start(&mut engine, 1, vec![1], 8, 4);
    engine.accept_with_seed(request(2, vec![1], 8), 1).unwrap();
    engine.scheduler.effective_max_running = Some(1);
    engine.cancel_sequence(1, 0);
    assert_eq!(engine.scheduler.effective_max_running, Some(2));
    engine.cancel_sequence(2, 0);
    assert_eq!(engine.scheduler.effective_max_running, None);
}

#[test]
fn sequential_decode_is_counted() {
    let mut engine = engine(2, MemoryConfig::parse(0, 0));
    engine.record_sequential_decode(
        3,
        SequentialTimings { decode_us: 9, forward_us: 5, sampling_us: 2 },
    );
    engine.record_row_sampled(true);
    engine.record_row_sampled(false);
    engine.record_sampling_failure();
    assert_eq!(engine.stats.total_sequential_decode_tokens.load(), 3);
    assert_eq!(engine.stats.total_decode_time_us.load(), 9);
    assert_eq!(engine.stats.total_sampling_row_greedy_tokens.load(), 1);
    assert_eq!(engine.stats.total_sampling_non_greedy_tokens.load(), 1);
    assert_eq!(engine.stats.total_sampling_failures.load(), 1);
}

#[test]
fn idle_engine_trims_once_and_polls() {
    let first = idle_step(Some(2), false, 1_999_500);
    assert!(!first.trim_now);
    assert_eq!(first.sleep_us, 1_000);
    let near = idle_step(Some(2), false, 1_990_000);
    assert_eq!(near.sleep_us, 10_000);
    let due = idle_step(Some(2), false, 2_000_000);
    assert!(due.trim_now);
    assert_eq!(due.sleep_us, 20_000);
    assert!(!idle_step(Some(2), true, 5_000_000).trim_now);
    assert_eq!(idle_step(None, false, 5_000_000).sleep_us, 20_000);
}

#[test]
fn scheduler_waits_for_a_fuller_batch() {
    let mut engine = engine(4, MemoryConfig::parse(0, 0));
    assert!(engine.wait_batch().is_none());
    start(&mut engine, 1, vec![1], 8, 4);
    let wait = engine.wait_batch().unwrap();
    assert_eq!((wait.target, wait.wait_us, wait.poll_us), (4, 500, 50));
    let wait = WaitBatch { target: 4, wait_us: 500, poll_us: 50 };
    assert_eq!(wait_batch_next(&wait, 4, 0), WaitBatchNext::TargetHit);
    assert_eq!(wait_batch_next(&wait, 1, 500), WaitBatchNext::TimedOut);
    assert_eq!(wait_batch_next(&wait, 1, 480), WaitBatchNext::Sleep { us: 20 });
    assert_eq!(wait_batch_next(&wait, 1, 0), WaitBatchNext::Sleep { us: 50 });
    engine.record_wait_batch(2, 30, true);
    engine.record_gpu_memory(5, 8);
    assert_eq!(engine.stats.total_sched_wait_arrivals.load(), 2);
    assert_eq!(engine.stats.total_sched_wait_target_hits.load(), 1);
    assert_eq!(engine.stats.gpu_memory_total_bytes.load(), 8);
}

#[test]
fn prefill_asks_for_each_step_in_turn() {
    let mut engine = engine(2, MemoryConfig::parse(0, 0));
    engine.accept_with_seed(request(1, vec![1, 2, 3], 8), 7).unwrap();
    engine.begin_step().unwrap();
    let mut run = PrefillRun::new(1);
    let first = engine.advance_prefill(&mut run, PrefillEvent::Begin);
    assert!(matches!(first, PrefillAction::SwapIn { id: 1 }));
    match engine.advance_prefill(&mut run, PrefillEvent::SwappedIn { ok: true }) {
        PrefillAction::Forward { id: 1, input } => assert_eq!(input.input_ids, vec![1, 2, 3]),
        other => panic!("{other:?}"),
    }
    let sample = engine.advance_prefill(&mut run, PrefillEvent::Forwarded { ok: true });
    assert!(matches!(sample, PrefillAction::Sample { id: 1 }));
    let sampled = PrefillEvent::Sampled { token: Some(5), greedy: true };
    let import = engine.advance_prefill(&mut run, sampled);
    assert!(matches!(import, PrefillAction::Import { id: 1, prompt_len: 3 }));
    assert_eq!(engine.stats.total_sampling_row_greedy_tokens.load(), 1);
    let swap = engine.advance_prefill(&mut run, PrefillEvent::Imported);
    assert!(matches!(swap, PrefillAction::SwapOut { id: 1 }));
    let send = engine.advance_prefill(&mut run, PrefillEvent::SwappedOut { timings: timings() });
    assert!(matches!(send, PrefillAction::Send { id: 1, token: 5 }));
    assert_eq!(engine.scheduler.running, vec![1]);
    assert_eq!(engine.sequences[0].tokens, vec![1, 2, 3, 5]);
    assert!(matches!(engine.advance_prefill(&mut run, PrefillEvent::Sent), PrefillAction::Done));
}

#[test]
fn failed_prefill_says_where_it_failed() {
    let mut engine = engine(2, MemoryConfig::parse(0, 0));
    engine.accept_with_seed(request(1, vec![1], 8), 7).unwrap();
    engine.begin_step().unwrap();
    let mut run = PrefillRun::new(1);
    engine.advance_prefill(&mut run, PrefillEvent::Begin);
    let mut stuck = run;
    let failed = engine.advance_prefill(&mut stuck, PrefillEvent::SwappedIn { ok: false });
    assert!(matches!(failed, PrefillAction::Fail { id: 1, stage: TurnStage::SwapIn }));
    engine.advance_prefill(&mut run, PrefillEvent::SwappedIn { ok: true });
    let mut stuck = run;
    let failed = engine.advance_prefill(&mut stuck, PrefillEvent::Forwarded { ok: false });
    assert!(matches!(failed, PrefillAction::Fail { id: 1, stage: TurnStage::Forward }));
    engine.advance_prefill(&mut run, PrefillEvent::Forwarded { ok: true });
    let nothing = PrefillEvent::Sampled { token: None, greedy: false };
    let failed = engine.advance_prefill(&mut run, nothing);
    assert!(matches!(failed, PrefillAction::Fail { id: 1, stage: TurnStage::Sampling }));
    assert_eq!(engine.stats.total_sampling_failures.load(), 1);
}

#[test]
fn sequences_take_turns_until_they_end() {
    let mut engine = engine(4, MemoryConfig::parse(0, 0));
    start(&mut engine, 1, vec![1, 2], 3, 4);
    start(&mut engine, 2, vec![1, 2], 9, 4);
    start(&mut engine, 3, vec![1, 2], 9, 4);
    let mut run = SequentialRun::new(vec![1, 2, 3]);
    let mut event = SequentialEvent::Begin;
    let mut seen = Vec::new();
    loop {
        event = match engine.advance_sequential(&mut run, event) {
            SequentialAction::AskClient { id } => SequentialEvent::Client { closed: id == 3 },
            SequentialAction::SwapIn { .. } => SequentialEvent::SwappedIn { ok: true },
            SequentialAction::Forward { id, input } => {
                seen.push((id, input.start_pos));
                SequentialEvent::Forwarded { ok: id == 1 || input.start_pos < 4 }
            }
            SequentialAction::Sample { .. } => {
                SequentialEvent::Sampled { token: Some(7), greedy: false }
            }
            SequentialAction::Send { token, .. } => {
                assert_eq!(token, 7);
                SequentialEvent::Client { closed: false }
            }
            SequentialAction::Finish { id } => {
                assert_eq!(id, 1);
                engine.finish_sequence(id, 0);
                SequentialEvent::Ended
            }
            SequentialAction::Fail { id, stage } => {
                assert_eq!((id, stage), (2, TurnStage::Forward));
                engine.fail_sequence(id, 0);
                SequentialEvent::Ended
            }
            SequentialAction::Cancel { id } => {
                assert_eq!(id, 3);
                engine.cancel_sequence(id, 0);
                SequentialEvent::Ended
            }
            SequentialAction::SwapOut { id } => {
                assert_ne!(id, 3);
                SequentialEvent::SwappedOut
            }
            SequentialAction::Done => break,
        };
    }
    assert_eq!(seen, vec![(1, 2), (1, 3), (2, 2), (2, 3), (2, 4)]);
    assert_eq!(run.tokens, 4);
    assert_eq!(engine.stats.total_sampling_non_greedy_tokens.load(), 4);
    assert!(engine.sequences.is_empty());
}

#[test]
fn turn_ends_after_its_rounds() {
    let mut engine = engine(4, MemoryConfig::parse(0, 0));
    start(&mut engine, 1, vec![1, 2], 50, 4);
    let mut run = SequentialRun::new(vec![1]);
    engine.advance_sequential(&mut run, SequentialEvent::Begin);
    engine.advance_sequential(&mut run, SequentialEvent::Client { closed: false });
    let mut action = engine.advance_sequential(&mut run, SequentialEvent::SwappedIn { ok: true });
    let mut rounds = 0;
    while matches!(action, SequentialAction::Forward { .. }) {
        rounds += 1;
        engine.advance_sequential(&mut run, SequentialEvent::Forwarded { ok: true });
        let sampled = SequentialEvent::Sampled { token: Some(7), greedy: true };
        engine.advance_sequential(&mut run, sampled);
        action = engine.advance_sequential(&mut run, SequentialEvent::Client { closed: false });
    }
    assert_eq!(rounds, engine.settings.decode_tokens_per_seq);
    assert!(matches!(action, SequentialAction::SwapOut { id: 1 }));
    let last = engine.advance_sequential(&mut run, SequentialEvent::SwappedOut);
    assert!(matches!(last, SequentialAction::Done));
}

#[test]
fn longest_output_is_evicted_first() {
    let mut engine = engine(4, MemoryConfig::parse(0, 6 * 100));
    start(&mut engine, 1, vec![1, 2, 3, 4, 5, 6], 8, 4);
    start(&mut engine, 2, vec![1], 8, 4);
    start(&mut engine, 3, vec![1, 2], 8, 4);
    engine.complete_decode(2, 7);
    engine.complete_decode(2, 7);
    engine.complete_decode(3, 7);
    for id in [1, 2, 3] {
        engine.set_caches(id, caches(5));
    }
    engine.recount_kv_bytes(0);
    let victims: Vec<u64> = engine.evict_if_needed().into_iter().map(|victim| victim.id).collect();
    assert_eq!(victims, vec![2, 3, 1]);
    assert_eq!(engine.scheduler.waiting, vec![2, 3, 1]);
}
