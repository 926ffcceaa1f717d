//! The engine's way through device pages, with pages in host memory.
use candle_core::{DType, Device, Tensor};
use crane_oai::cuda_graph::CudaGraphEnv;
use crane_oai::engine::caches::SwapInPlan;
use crane_oai::engine::config::{EngineEnv, ModelTraits};
use crane_oai::engine::lifecycle::EngineRequest;
use crane_oai::engine::sequence::FinishReason;
use crane_oai::engine::shadow::{row_to_compare, ShadowError};
use crane_oai::engine::state::InferenceEngine;
use crane_oai::engine::turns::PrefillTimings;
use crane_oai::memory::MemoryConfig;
use crane_oai::paged_kv::{PagedKvGpuError, PagedKvGpuPageStore, PagedKvLayout, PagedKvPlane};
use crane_oai::tensors::LayerKvCaches;
use tokenizers::decoders::strip::Strip;
use tokenizers::models::wordlevel::WordLevel;
use tokenizers::pre_tokenizers::byte_level::ByteLevel;
use tokenizers::Tokenizer;

fn layout() -> PagedKvLayout {
    PagedKvLayout { num_layers: 2, num_kv_heads: 1, head_dim: 2, dtype_size_bytes: 2 }
}

fn model(supports_kv_swap: bool) -> ModelTraits {
    ModelTraits {
        num_layers: 2,
        supports_kv_swap,
        supports_batch_decode: true,
        device: Device::Cpu,
        dtype: DType::BF16,
        kv_layout: Some(layout()),
        workspace_generation: 1,
    }
}

fn env() -> EngineEnv<'static> {
    EngineEnv {
        paged_kv_block_size: Some("4"),
        paged_kv_shadow_validate: None,
        paged_kv_shadow_max_layers: None,
        paged_kv_native_append: Some("1"),
        paged_kv_pressure_reserve_mb: Some("1"),
        paged_kv_gather_extract: Some("1"),
        paged_kv_attention: Some("1"),
        paged_kv_attention_min_active_rows: None,
        paged_kv_attention_min_seq_len: Some("1"),
        paged_kv_batched_setup: Some("1"),
        idle_cuda_mem_trim_secs: None,
        profile: None,
        sched_wait_batch_us: None,
        sched_wait_batch_target: None,
        sched_wait_batch_poll_us: None,
        disable_gpu_mem_hard_check: None,
        decode_device_token_input: None,
        graph_width_bucket: None,
        graph_no_reuse: None,
        graph: CudaGraphEnv {
            enabled: None,
            buckets: None,
            fixed_width: None,
            capture: None,
            capture_sampling: None,
            max_replays: None,
        },
    }
}

fn engine_of(traits: &ModelTraits, memory: MemoryConfig) -> InferenceEngine {
    let mut engine = InferenceEngine::new(traits, 4, 4, memory, &env());
    assert!(engine.paged_kv_gpu_store.is_none());
    engine.paged_kv_gpu_store =
        Some(PagedKvGpuPageStore::new(4, layout(), DType::BF16, &Device::Cpu));
    engine
}

fn start(engine: &mut InferenceEngine, id: u64, tokens: Vec<u32>, first: u32) {
    let prompt_len = tokens.len();
    let request = EngineRequest {
        id,
        request_id: format!("request-{id}"),
        tokens,
        max_tokens: 8,
        temperature: None,
        top_p: None,
        top_k: None,
        repetition_penalty: 1.0f32.to_bits(),
        eos_token_id: vec![9],
    };
    engine.accept_with_seed(request, id).unwrap();
    assert_eq!(engine.begin_step().unwrap().batch, vec![id]);
    assert!(engine.page_room(prompt_len as u64));
    let timings = PrefillTimings {
        prefill_us: 0,
        queue_wait_us: 0,
        ttft_us: 0,
        forward_us: 0,
        sampling_us: 0,
        swap_us: 0,
    };
    assert!(!engine.complete_prefill(id, prompt_len, first, timings));
}

fn two_rows(memory: MemoryConfig) -> InferenceEngine {
    let mut engine = engine_of(&model(true), memory);
    start(&mut engine, 1, vec![1, 2, 3], 4);
    start(&mut engine, 2, vec![1, 2, 3, 4, 5], 6);
    engine
}

fn caches(rows: usize, tokens: usize) -> LayerKvCaches {
    let tensor = Tensor::zeros((rows, 1, tokens, 2), DType::BF16, &Device::Cpu).unwrap();
    vec![Some((tensor.clone(), tensor.clone())), Some((tensor.clone(), tensor))]
}

fn import(engine: &mut InferenceEngine) {
    let (batch, kv_lens, every) = (vec![1, 2], vec![3, 5], vec![true, true]);
    assert!(engine.begin_import(0));
    let plan = engine.prepare_import(&batch, &kv_lens, 5).unwrap();
    assert_eq!(plan.entries(), 8);
    let copies = engine.copy_into_pages(&caches(2, 5), &plan).unwrap().unwrap();
    assert_eq!(copies.ready, 2);
    assert_eq!(copies.pages.dims()[0], engine.paged_kv_gpu_store.as_ref().unwrap().capacity_pages());
    engine.mark_resident(&batch, &kv_lens, 0, &every);
}

#[test]
fn imported_rows_are_resident_and_can_be_gathered() {
    let mut engine = two_rows(MemoryConfig::parse(0, 0));
    let (batch, kv_lens, every) = (vec![1, 2], vec![3, 5], vec![true, true]);
    assert!(engine.plan_regather(&batch).is_none());
    import(&mut engine);
    assert_eq!(engine.sequences[0].paged_kv.gpu_resident_token_len(), 3);
    assert!(engine.paged_kv_batch_past_is_resident(&batch, &kv_lens, &every));
    assert!(!engine.paged_kv_batch_total_is_resident(&batch, &kv_lens, 1, &every));
    let plan = engine.plan_regather(&batch).unwrap();
    assert_eq!(plan.max_total_len, 5);
    assert_eq!(plan.per_row_totals, vec![Some(3), Some(5)]);
    assert!(engine.gather_fits(&plan));
    let gather = engine.gather_layer(&plan, 1).unwrap();
    assert_eq!(gather.output.dims(), &[2, 1, 5, 2]);
    assert_eq!(gather.plan.target_token_indices, vec![2, 3, 4, 0, 1, 2, 3, 4]);
    assert!(gather.pages.is_some());
    assert!(matches!(
        engine.gather_layer(&plan, 2),
        Err(PagedKvGpuError::LayerOutOfRange { layer: 2, num_layers: 2 })
    ));
    let extract = engine.complete_regather(plan, caches(2, 5), 7);
    assert_eq!(extract.per_layer.len(), 2);
    assert_eq!(engine.stats.total_paged_kv_gather_regathers.load(), 1);
    assert_eq!(engine.stats.total_paged_kv_gather_kernel_time_us.load(), 7);
}

#[test]
fn appended_rows_leave_the_batch_through_pages() {
    let mut engine = two_rows(MemoryConfig::parse(0, 0));
    let (batch, kv_lens, keep) = (vec![1, 2], vec![3, 5], vec![true, false]);
    assert!(!engine.begin_append(&batch, &kv_lens, 2, &keep, 0));
    import(&mut engine);
    assert!(engine.begin_append(&batch, &kv_lens, 2, &keep, 0));
    let plan = engine.prepare_append(&batch, &kv_lens, 5, 2, &keep).unwrap();
    assert_eq!(plan.source_token_indices, vec![5, 6]);
    assert!(engine.copy_into_pages(&caches(2, 7), &plan).unwrap().is_some());
    engine.mark_resident(&batch, &kv_lens, 2, &keep);
    assert_eq!(engine.sequences[0].paged_kv.gpu_resident_token_len(), 5);
    assert!(engine.plan_extract(&batch, &kv_lens, 2, &vec![true, true]).is_none());
    let plan = engine.plan_extract(&batch, &kv_lens, 2, &keep).unwrap();
    assert_eq!(plan.per_row_totals, vec![Some(5), None]);
    let extract = engine.complete_extract(plan, caches(2, 5), 3);
    assert_eq!(extract.max_total_len, 5);
    assert_eq!(engine.stats.total_paged_kv_gather_extracts.load(), 1);
    assert_eq!(engine.stats.total_paged_kv_gather_extract_layers.load(), 2);
}

#[test]
fn copies_need_a_buffer_for_every_layer() {
    let mut engine = two_rows(MemoryConfig::parse(0, 0));
    let plan = engine.prepare_import(&vec![1], &vec![3], 3).unwrap();
    let mut gap = caches(1, 3);
    gap[1] = None;
    assert_eq!(engine.copy_into_pages(&gap, &plan).unwrap().unwrap().ready, 1);
    gap.pop();
    assert!(matches!(
        engine.copy_into_pages(&gap, &plan),
        Err(PagedKvGpuError::LayerCountMismatch { expected: 2, actual: 1 })
    ));
}

#[test]
fn resident_rows_attend_their_pages() {
    let mut engine = two_rows(MemoryConfig::parse(0, 0));
    let (batch, kv_lens, every) = (vec![1, 2], vec![3, 5], vec![true, true]);
    assert!(engine.should_attempt_paged_attention_for_round(&batch, &kv_lens, 0, &every));
    assert!(engine.maybe_build_paged_attention_context(&batch, &kv_lens, 0, &every).is_none());
    assert_eq!(engine.stats.total_paged_kv_attention_fallbacks.load(), 1);
    import(&mut engine);
    let plan = engine.maybe_build_paged_attention_context(&batch, &kv_lens, 0, &every).unwrap();
    assert_eq!(plan.table.indptr, vec![0, 1, 3]);
    assert_eq!(plan.table.seq_lens, vec![3, 5]);
    assert_eq!(plan.table.last_page_lens, vec![3, 1]);
    assert_eq!((plan.block_size, plan.num_layers), (4, 2));
    assert_eq!(engine.stats.total_paged_kv_attention_contexts.load(), 1);
}

#[test]
fn memory_pressure_gives_pages_up() {
    let mut engine = two_rows(MemoryConfig::parse(0, 1 << 22));
    import(&mut engine);
    assert!(!engine.skip_paged_kv_gpu_copy_for_pressure(3 << 20));
    assert!(engine.skip_paged_kv_gpu_copy_for_pressure((3 << 20) + 1));
    assert_eq!(engine.stats.total_paged_kv_pressure_skips.load(), 1);
    assert!(engine.stats.total_paged_kv_pressure_released_pages.load() >= 3);
    assert_eq!(engine.sequences[1].paged_kv.gpu_resident_token_len(), 0);
    assert_eq!(engine.sequences[1].paged_kv.token_len(), 5);
    assert!(engine.paged_kv_gpu_store.as_ref().unwrap().pages().is_none());
}

#[test]
fn released_pages_are_set_to_zero_while_others_live() {
    let mut engine = two_rows(MemoryConfig::parse(0, 0));
    import(&mut engine);
    assert_eq!(engine.finish_sequence(2, 0), vec![2, 3]);
    assert_eq!(engine.finish_sequence(1, 0), Vec::<u32>::new());
    assert!(engine.paged_kv_gpu_store.as_ref().unwrap().pages().is_none());
    assert_eq!(engine.stats.paged_kv_live_pages.load(), 0);
}

#[test]
fn model_without_swap_is_cleared_for_each_sequence() {
    let mut engine = engine_of(&model(false), MemoryConfig::parse(0, 0));
    start(&mut engine, 1, vec![1, 2], 3);
    assert!(matches!(engine.plan_swap_in(1), SwapInPlan::Clear));
    engine.swap_in_cleared(1);
    assert_eq!(engine.active, Some(1));
    engine.set_caches(1, caches(1, 2));
    engine.swap_out(1, 5);
    assert!(engine.sequences[0].any_cache());
    assert_eq!(engine.tracked_kv_bytes, 0);
}

#[test]
fn turn_leaves_the_caches_with_the_model() {
    let mut engine = two_rows(MemoryConfig::parse(0, 0));
    engine.set_caches(1, caches(1, 3));
    engine.swap_in_loaded(1, 24);
    engine.swap_out(2, 24);
    assert!(engine.sequences[0].any_cache());
    engine.swap_out(1, 32);
    assert!(!engine.sequences[0].any_cache());
    assert_eq!(engine.tracked_kv_bytes, 32);
}

#[test]
fn client_is_told_the_text_and_why_it_ends() {
    let vocab = ["a", "b", "\u{120}c", "[UNK]", "e", "f", "g", "h", "i", "j"]
        .iter()
        .enumerate()
        .map(|(id, token)| (token.to_string(), id as u32))
        .collect();
    let words = WordLevel::builder().vocab(vocab).unk_token("[UNK]".into()).build().unwrap();
    let mut tokenizer = Tokenizer::new(words);
    let mut engine = engine_of(&model(true), MemoryConfig::parse(0, 0));
    start(&mut engine, 1, vec![1, 2], 0);
    assert!(!engine.complete_decode(1, 2));
    tokenizer.with_decoder(Some(Strip::new('a', 1, 0)));
    let undecoded = engine.finish_report(1, &tokenizer).unwrap();
    assert!(undecoded.full_text.is_none());
    tokenizer.with_decoder(Some(ByteLevel::default()));
    let report = engine.finish_report(1, &tokenizer).unwrap();
    assert_eq!(report.full_text.as_deref(), Some("a c"));
    assert_eq!((report.prompt_tokens, report.completion_tokens), (2, 2));
    assert_eq!(report.finish_reason, FinishReason::Length);
    assert!(engine.complete_decode(1, 9));
    assert_eq!(engine.finish_report(1, &tokenizer).unwrap().finish_reason, FinishReason::Stop);
    assert!(engine.finish_report(7, &tokenizer).is_none());
}

#[test]
fn compared_rows_have_their_layers() {
    let row = caches(1, 3);
    let key = PagedKvPlane::Key;
    assert!(row_to_compare(&row, layout(), 3, 0, 1, key).unwrap().is_some());
    assert!(row_to_compare(&vec![None, None], layout(), 0, 0, 1, key).unwrap().is_none());
    assert!(matches!(
        row_to_compare(&row, layout(), 3, 4, 2, key),
        Err(ShadowError::MissingLayer { row: 4, cache_len: 3, layer: 2 })
    ));
    assert!(matches!(
        row_to_compare(&row, layout(), 2, 4, 0, key),
        Err(ShadowError::ShapeMismatch { row: 4, layer: 0, .. })
    ));
}
