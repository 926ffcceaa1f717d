//! Sampling.
use candle_core::{DType, Device, Tensor};
use crane_oai::engine::sequence::{Sequence, SequenceStatus};
use crane_oai::paged_kv::PagedKvSequence;
use crane_oai::sampling::{
    apply_repeat_penalty_inplace, rand_seed, sample_batch_greedy, BatchGreedyMode, SamplingBuffers,
};

fn single(value: f32) -> u32 {
    value.to_bits()
}

fn double(value: f64) -> u64 {
    value.to_bits()
}

fn make_greedy_seq(tokens: Vec<u32>, repetition_penalty: f32) -> Sequence {
    Sequence {
        id: 1,
        request_id: "test-seq".into(),
        status: SequenceStatus::Running,
        prompt_len: tokens.len(),
        tokens,
        kv_caches: vec![],
        paged_kv: PagedKvSequence::default(),
        sampling_seed: 42,
        temperature: Some(double(0.0)),
        top_p: Some(double(1.0)),
        top_k: None,
        max_tokens: 16,
        eos_token_id: vec![0],
        repetition_penalty: single(repetition_penalty),
        repeat_last_n: 64,
    }
}

#[test]
fn rand_seed_is_nonzero() {
    let seed = rand_seed();
    assert_ne!(seed, 0);
}

#[test]
fn rand_seed_varies_across_calls() {
    let s1 = rand_seed();
    // Spin a bit to ensure time advances.
    let start = std::time::Instant::now();
    while start.elapsed() < std::time::Duration::from_millis(1) {}
    let s2 = rand_seed();
    assert_ne!(s1, s2);
}

// ── SamplingBuffers tests ──

#[test]
fn sampling_buffers_new_is_empty() {
    let b = SamplingBuffers::new();
    assert!(b.topk_cumsum_mats.is_empty());
    assert!(b.topk_shift_bufs.is_empty());
    assert!(b.topk_shift_idxs.is_empty());
    assert!(b.topk_neg_vecs.is_empty());
}

#[test]
fn get_topk_neg_vec_creates_and_caches() {
    let mut b = SamplingBuffers::new();
    let dev = Device::Cpu;

    let v1 = b.get_topk_neg_vec(5, &dev).unwrap();
    assert_eq!(v1.dims(), &[5]);
    // All values should be -1e9.
    let vals: Vec<f32> = v1.to_vec1().unwrap();
    for v in &vals {
        assert!((*v - (-1e9f32)).abs() < 1.0);
    }

    // Second call should return cached version.
    assert!(b.topk_neg_vecs.contains_key(&5));
    let v2 = b.get_topk_neg_vec(5, &dev).unwrap();
    assert_eq!(v2.dims(), &[5]);
}

#[test]
fn get_topk_shift_idx_creates_range() {
    let mut b = SamplingBuffers::new();
    let dev = Device::Cpu;

    let idx = b.get_topk_shift_idx(5, &dev).unwrap();
    let vals: Vec<u32> = idx.to_vec1().unwrap();
    assert_eq!(vals, vec![1, 2, 3, 4]);
}

#[test]
fn get_topk_shift_idx_k1_fails() {
    let mut b = SamplingBuffers::new();
    let dev = Device::Cpu;
    assert!(b.get_topk_shift_idx(1, &dev).is_err());
}

#[test]
fn get_topk_shift_buf_zeros() {
    let mut b = SamplingBuffers::new();
    let dev = Device::Cpu;

    let buf = b.get_topk_shift_buf(4, &dev, DType::F32).unwrap();
    let vals: Vec<f32> = buf.to_vec1().unwrap();
    assert_eq!(vals, vec![0.0; 4]);
}

#[test]
fn get_topk_cumsum_mat_upper_triangular() {
    let mut b = SamplingBuffers::new();
    let dev = Device::Cpu;

    let mat = b.get_topk_cumsum_mat(3, &dev).unwrap();
    assert_eq!(mat.dims(), &[3, 3]);
    let vals: Vec<Vec<f32>> = mat.to_vec2().unwrap();
    // Upper triangular with 1s and 0s below diagonal.
    // Row 0 (row <= col for all): [1, 1, 1]
    // Row 1 (row=1 <= col for col>=1): [0, 1, 1]
    // Row 2 (row=2 <= col for col>=2): [0, 0, 1]
    assert_eq!(vals[0], vec![1.0, 1.0, 1.0]);
    assert_eq!(vals[1], vec![0.0, 1.0, 1.0]);
    assert_eq!(vals[2], vec![0.0, 0.0, 1.0]);
}

#[test]
fn cumsum_mat_cached_on_second_call() {
    let mut b = SamplingBuffers::new();
    let dev = Device::Cpu;

    let _ = b.get_topk_cumsum_mat(4, &dev).unwrap();
    assert!(b.topk_cumsum_mats.contains_key(&4));

    let mat2 = b.get_topk_cumsum_mat(4, &dev).unwrap();
    assert_eq!(mat2.dims(), &[4, 4]);
}

#[test]
fn sample_batch_greedy_matches_row_argmax_without_penalty() {
    let logits =
        Tensor::from_vec(vec![1.0f32, 2.0, 3.0, 5.0, 6.0, 4.0], (2, 3), &Device::Cpu).unwrap();
    let seq0 = make_greedy_seq(vec![0], 1.0);
    let seq1 = make_greedy_seq(vec![1], 1.0);
    let mut buffers = SamplingBuffers::new();

    let sample =
        sample_batch_greedy(&logits, &[&seq0, &seq1], &[true, true], &mut buffers).unwrap();

    assert_eq!(sample.tokens, vec![2, 1]);
    assert_eq!(sample.mode, BatchGreedyMode::TensorFallback);
}

#[test]
fn sample_batch_greedy_applies_repetition_penalty() {
    let logits =
        Tensor::from_vec(vec![5.0f32, 4.0, 1.0, 0.5, 1.0, 2.0], (2, 3), &Device::Cpu).unwrap();
    let seq0 = make_greedy_seq(vec![0], 2.0);
    let seq1 = make_greedy_seq(vec![1], 1.0);
    let mut buffers = SamplingBuffers::new();

    let sample =
        sample_batch_greedy(&logits, &[&seq0, &seq1], &[true, true], &mut buffers).unwrap();

    assert_eq!(sample.tokens, vec![1, 2]);
    assert_eq!(sample.mode, BatchGreedyMode::TensorFallback);
}

// ── apply_repeat_penalty_inplace tests ──

#[test]
fn repeat_penalty_empty_context_is_noop() {
    let logits = Tensor::new(&[1.0f32, 2.0, 3.0], &Device::Cpu).unwrap();
    let logits = apply_repeat_penalty_inplace(logits, single(2.0), &[]).unwrap();
    let vals: Vec<f32> = logits.to_vec1().unwrap();
    assert_eq!(vals, vec![1.0, 2.0, 3.0]);
}

#[test]
fn repeat_penalty_reduces_positive_logits() {
    let logits = Tensor::new(&[4.0f32, 2.0, 6.0, 1.0], &Device::Cpu).unwrap();
    // Penalize tokens 0 and 2 with penalty=2.0.
    let logits = apply_repeat_penalty_inplace(logits, single(2.0), &[0, 2]).unwrap();
    let vals: Vec<f32> = logits.to_vec1().unwrap();
    // Positive logits are divided by penalty.
    assert!((vals[0] - 2.0).abs() < 0.01); // 4.0 / 2.0
    assert!((vals[1] - 2.0).abs() < 0.01); // untouched
    assert!((vals[2] - 3.0).abs() < 0.01); // 6.0 / 2.0
    assert!((vals[3] - 1.0).abs() < 0.01); // untouched
}

#[test]
fn repeat_penalty_amplifies_negative_logits() {
    let logits = Tensor::new(&[-4.0f32, 2.0, -6.0], &Device::Cpu).unwrap();
    // Penalize tokens 0 and 2 with penalty=2.0.
    let logits = apply_repeat_penalty_inplace(logits, single(2.0), &[0, 2]).unwrap();
    let vals: Vec<f32> = logits.to_vec1().unwrap();
    // Negative logits are multiplied by penalty (making them more negative).
    assert!((vals[0] - (-8.0)).abs() < 0.01); // -4.0 * 2.0
    assert!((vals[1] - 2.0).abs() < 0.01); // untouched
    assert!((vals[2] - (-12.0)).abs() < 0.01); // -6.0 * 2.0
}

#[test]
fn repeat_penalty_deduplicates_context() {
    let logits = Tensor::new(&[4.0f32, 2.0, 6.0], &Device::Cpu).unwrap();
    // Duplicate tokens in context should not double-penalize.
    let logits = apply_repeat_penalty_inplace(logits, single(2.0), &[0, 0, 0]).unwrap();
    let vals: Vec<f32> = logits.to_vec1().unwrap();
    assert!((vals[0] - 2.0).abs() < 0.01); // 4.0 / 2.0
}

#[test]
fn repeat_penalty_no_effect_with_1() {
    let logits = Tensor::new(&[4.0f32, -2.0, 6.0], &Device::Cpu).unwrap();
    let logits = apply_repeat_penalty_inplace(logits, single(1.0), &[0, 1, 2]).unwrap();
    let vals: Vec<f32> = logits.to_vec1().unwrap();
    assert!((vals[0] - 4.0).abs() < 0.01);
    assert!((vals[1] - (-2.0)).abs() < 0.01);
    assert!((vals[2] - 6.0).abs() < 0.01);
}
