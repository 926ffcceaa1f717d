//! Tensors without elements, views that begin behind them, and rows that repeat one element.
use candle_core::{DType, Device, Tensor};
use candle_transformers::generation::LogitsProcessor;
use crane_oai::engine::sequence::{Sequence, SequenceStatus};
use crane_oai::engine::shadow_check::single_values;
use crane_oai::paged_kv::PagedKvSequence;
use crane_oai::prefix_cache::PrefixCache;
use crane_oai::sampling::draw::{sample_from_f32_logits, RowDraw};
use crane_oai::sampling::plan::RowPlan;
use crane_oai::sampling::rows::{apply_repeat_penalty_inplace, likeliest, prepare_row, take_row};
use crane_oai::sampling::{
    prepare_batch_sampling_logits, sample_batch_greedy, sample_gumbel_max_idx, SamplingBuffers,
};
use crane_oai::tensor_math::is_on_cpu;
use crane_oai::tensors::{holds_elements, is_sized};

/// A view without elements that begins behind its empty storage.
fn empty_view(dtype: DType) -> Tensor {
    let whole = Tensor::zeros((0, 5), dtype, &Device::Cpu).unwrap();
    whole.narrow(1, 3, 2).unwrap()
}

/// One element that fills a shape of one element without a step of its own.
fn repeated(value: f32, dims: &[usize]) -> Tensor {
    Tensor::new(value, &Device::Cpu).unwrap().broadcast_as(dims).unwrap()
}

fn sequence(temperature: f64) -> Sequence {
    Sequence {
        id: 1,
        request_id: String::new(),
        status: SequenceStatus::Running,
        prompt_len: 1,
        tokens: vec![0, 0],
        kv_caches: vec![],
        paged_kv: PagedKvSequence::default(),
        sampling_seed: 42,
        temperature: Some(temperature.to_bits()),
        top_p: None,
        top_k: None,
        max_tokens: 16,
        eos_token_id: vec![9],
        repetition_penalty: 1.0f32.to_bits(),
        repeat_last_n: 64,
    }
}

#[test]
fn views_say_whether_they_hold_elements() {
    assert!(!holds_elements(&empty_view(DType::F32)));
    assert!(holds_elements(&repeated(1.0, &[1, 1])));
}

#[test]
fn empty_logits_are_prepared_as_they_are() {
    let rows = prepare_batch_sampling_logits(&empty_view(DType::BF16)).unwrap();
    assert_eq!((rows.dims(), rows.dtype()), (&[0usize, 2][..], DType::F32));
    let flat = empty_view(DType::BF16).reshape(0).unwrap();
    let rows = prepare_batch_sampling_logits(&flat).unwrap();
    assert_eq!((rows.dims(), rows.dtype()), (&[0usize][..], DType::F32));
    let same = prepare_batch_sampling_logits(&empty_view(DType::F32)).unwrap();
    assert_eq!(same.dims(), &[0, 2]);
    let row = prepare_row(&flat).unwrap();
    assert_eq!((row.dims(), row.dtype()), (&[0usize][..], DType::F32));
}

#[test]
fn empty_rows_cannot_be_penalised() {
    let row = empty_view(DType::F32).reshape(0).unwrap();
    assert!(apply_repeat_penalty_inplace(row, 2.0f32.to_bits(), &[0]).is_err());
}

#[test]
fn empty_rows_have_no_likeliest_token() {
    let row = empty_view(DType::F32).reshape(0).unwrap();
    assert!(likeliest(&row).is_err());
    let greedy = sequence(0.0);
    assert!(sample_batch_greedy(&empty_view(DType::F32), &[&greedy], &[true], &mut SamplingBuffers::new()).is_err());
}

#[test]
fn empty_caches_are_read_as_nothing() {
    let cache = Tensor::zeros((1, 2, 0, 4), DType::F32, &Device::Cpu).unwrap();
    let half = cache.narrow(3, 2, 2).unwrap();
    assert!(single_values(&half).unwrap().is_empty());
    assert!(single_values(&empty_view(DType::BF16)).unwrap().is_empty());
}

#[test]
fn empty_caches_are_kept_as_prefixes() {
    let cache = Tensor::zeros((1, 0, 5, 4), DType::F32, &Device::Cpu).unwrap();
    let half = cache.narrow(3, 2, 2).unwrap();
    let mut prefixes = PrefixCache::new(true, 2, 4, 1 << 20);
    let filled = Tensor::ones((1, 1, 5, 2), DType::F32, &Device::Cpu).unwrap();
    let nothing = vec![Some((half.clone(), half.clone()))];
    assert!(!prefixes.insert(&[1, 2], &nothing).unwrap());
    let layers = vec![Some((half.clone(), half)), Some((filled.clone(), filled))];
    assert!(prefixes.insert(&[1, 2], &layers).unwrap());
    let (tokens, found) = prefixes.lookup(&[1, 2, 3]).unwrap();
    assert_eq!(tokens, 2);
    assert_eq!(found[0].as_ref().unwrap().0.dims(), &[1, 0, 2, 2]);
    assert_eq!(prefixes.used_bytes(), 2 * (2 * 2 * 4));
}

#[test]
fn a_single_token_is_the_likeliest() {
    let row = repeated(3.0, &[1]);
    assert_eq!(likeliest(&row).unwrap().to_scalar::<u32>().unwrap(), 0);
    let noise = Tensor::new(&[0.5f32], &Device::Cpu).unwrap();
    let chosen = sample_gumbel_max_idx(&row, 1.0f64.to_bits(), &noise).unwrap();
    assert_eq!(chosen.to_scalar::<u32>().unwrap(), 0);
    let cold = sample_gumbel_max_idx(&row, 0.0f64.to_bits(), &noise).unwrap();
    assert_eq!(cold.to_scalar::<u32>().unwrap(), 0);
    let greedy = sequence(0.0);
    let sampled = sample_batch_greedy(&repeated(3.0, &[1, 1]), &[&greedy], &[true], &mut SamplingBuffers::new()).unwrap();
    assert_eq!(sampled.tokens, vec![0]);
}

#[test]
fn a_single_token_is_drawn() {
    let row = repeated(3.0, &[1]);
    let mut buffers = SamplingBuffers::new();
    for plan in [RowPlan::Greedy, RowPlan::Processor] {
        let mut processor = LogitsProcessor::new(42, Some(0.7), Some(0.9));
        let drawn = sample_from_f32_logits(
            &sequence(0.7),
            &row,
            plan,
            &RowDraw::Nothing,
            &mut buffers,
            &mut processor,
        );
        assert_eq!(drawn.unwrap(), 0);
    }
    let mut greedy = LogitsProcessor::new(42, None, None);
    let drawn = sample_from_f32_logits(
        &sequence(0.7),
        &row,
        RowPlan::Processor,
        &RowDraw::Nothing,
        &mut buffers,
        &mut greedy,
    );
    assert_eq!(drawn.unwrap(), 0);
}

#[test]
fn views_beyond_all_memory_are_refused() {
    let long = repeated(1.0, &[1 << 61]);
    assert!(!is_sized(&long) && !is_on_cpu(&long));
    assert!(is_sized(&repeated(1.0, &[3])) && is_on_cpu(&repeated(1.0, &[3])));
    assert!(likeliest(&long).is_err());
    assert!(single_values(&long).is_err());
    assert!(apply_repeat_penalty_inplace(long.clone(), 2.0f32.to_bits(), &[0]).is_err());
    assert!(sample_gumbel_max_idx(&long, 1.0f64.to_bits(), &long).is_err());
    let halves = Tensor::new(1.0f32, &Device::Cpu).unwrap().to_dtype(DType::BF16).unwrap();
    let batch = halves.broadcast_as((1 << 40, 1 << 20)).unwrap();
    assert!(prepare_batch_sampling_logits(&batch).is_err());
    let mut prefixes = PrefixCache::new(true, 2, 4, 1 << 20);
    let cache = repeated(1.0, &[1, 1 << 60, 5, 2]);
    assert!(prefixes.insert(&[1, 2], &vec![Some((cache.clone(), cache))]).is_err());
    assert_eq!(prefixes.len(), 0);
}

#[test]
fn the_last_number_is_no_row() {
    let rows = repeated(1.0, &[2, 3]);
    assert!(take_row(&rows, usize::MAX).is_err());
    assert!(take_row(&rows, 2).is_err());
    assert_eq!(take_row(&rows, 1).unwrap().dims(), &[3]);
}
