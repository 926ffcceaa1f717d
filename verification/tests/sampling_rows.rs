//! Sampling of single rows and of device batches.
use candle_core::{DType, Device, Tensor};
use candle_transformers::generation::LogitsProcessor;
use crane_oai::engine::sequence::{Sequence, SequenceStatus};
use crane_oai::paged_kv::PagedKvSequence;
use crane_oai::sampling::draw::{
    begin_row, sample_from_f32_logits, token_at_place, RowDraw,
};
use crane_oai::sampling::plan::{
    plan_batch_greedy, plan_batch_non_greedy, plan_row, BatchGreedyPlan, RowPlan, RowSamplingEnv,
    SamplingError,
};
use crane_oai::sampling::rows::{
    apply_repeat_penalty_inplace, can_penalise_on_cpu, is_noise_for, likeliest, prepare_row,
    sample as start_sample, take_row, SampleStep,
};
use crane_oai::sampling::{
    is_greedy, is_greedy_no_penalty, prepare_batch_sampling_logits, sample_batch_greedy,
    sample_gumbel_max_idx, SamplingBuffers,
};
use crane_oai::tensor_math::is_on_cpu;

fn sequence(temperature: Option<f64>, top_p: Option<f64>, top_k: Option<usize>) -> Sequence {
    Sequence {
        id: 1,
        request_id: String::new(),
        status: SequenceStatus::Running,
        prompt_len: 1,
        tokens: vec![2, 0],
        kv_caches: vec![],
        paged_kv: PagedKvSequence::default(),
        sampling_seed: 42,
        temperature: temperature.map(f64::to_bits),
        top_p: top_p.map(f64::to_bits),
        top_k,
        max_tokens: 16,
        eos_token_id: vec![9],
        repetition_penalty: 1.0f32.to_bits(),
        repeat_last_n: 64,
    }
}

fn env() -> RowSamplingEnv<'static> {
    RowSamplingEnv { force_gpu_topk: None, topp_fallback_topk: None, topk_sample_on_cpu: None }
}

fn row(values: &[f32]) -> Tensor {
    Tensor::new(values, &Device::Cpu).unwrap()
}

fn noise(count: usize) -> Tensor {
    Tensor::new(vec![0.5f32; count], &Device::Cpu).unwrap()
}

fn processor() -> LogitsProcessor {
    LogitsProcessor::new(42, Some(0.7), Some(0.9))
}

fn sample(seq: &Sequence, values: &[f32], plan: RowPlan, drawn: &RowDraw) -> Result<u32, SamplingError> {
    let mut buffers = SamplingBuffers::new();
    sample_from_f32_logits(seq, &row(values), plan, drawn, &mut buffers, &mut processor())
}

#[test]
fn greedy_means_no_temperature() {
    assert!(is_greedy(&sequence(Some(0.0), None, None)));
    assert!(!is_greedy(&sequence(Some(0.5), None, None)));
    assert!(!is_greedy(&sequence(None, None, None)));
    let mut penalised = sequence(Some(0.0), None, None);
    penalised.repetition_penalty = 1.2f32.to_bits();
    assert!(!is_greedy_no_penalty(&penalised));
}

#[test]
fn rows_are_planned_by_device_and_parameters() {
    let nucleus = sequence(Some(0.7), Some(0.9), None);
    assert_eq!(plan_row(&nucleus, false, 100, &env()), RowPlan::Processor);
    assert_eq!(plan_row(&nucleus, true, 70000, &env()), RowPlan::Processor);
    assert_eq!(
        plan_row(&nucleus, true, 1000, &env()),
        RowPlan::TopK { k: 64, masked: true, on_cpu: false }
    );
    let forced = RowSamplingEnv {
        force_gpu_topk: Some("1"),
        topp_fallback_topk: Some("8"),
        topk_sample_on_cpu: Some("1"),
    };
    assert_eq!(
        plan_row(&nucleus, true, 70000, &forced),
        RowPlan::TopK { k: 8, masked: true, on_cpu: true }
    );
    let top_k = sequence(Some(0.7), None, Some(500));
    assert_eq!(
        plan_row(&top_k, true, 1000, &env()),
        RowPlan::TopK { k: 64, masked: false, on_cpu: false }
    );
    assert_eq!(plan_row(&top_k, true, 30, &env()), RowPlan::Gumbel);
    assert_eq!(plan_row(&sequence(Some(0.0), None, None), true, 30, &env()), RowPlan::Greedy);
}

#[test]
fn rows_are_checked_and_penalised_first() {
    let mut seq = sequence(Some(0.0), None, None);
    seq.repetition_penalty = 2.0f32.to_bits();
    let (out, plan) = begin_row(row(&[5.0, 4.0, 1.0]), &seq, &env()).unwrap();
    assert_eq!(plan, RowPlan::Greedy);
    assert_eq!(out.to_vec1::<f32>().unwrap(), vec![2.5, 4.0, 0.5]);
    let two = Tensor::zeros((2, 2), DType::F32, &Device::Cpu).unwrap();
    assert!(matches!(begin_row(two, &seq, &env()), Err(SamplingError::NotARow { rank: 2 })));
}

#[test]
fn greedy_rows_take_the_likeliest_token() {
    let seq = sequence(Some(0.0), None, None);
    assert_eq!(sample(&seq, &[1.0, 3.0, 2.0], RowPlan::Greedy, &RowDraw::Nothing).unwrap(), 1);
}

#[test]
fn equal_noise_takes_the_likeliest_token() {
    let seq = sequence(Some(0.5), None, None);
    let drawn = RowDraw::Noise(noise(3));
    assert_eq!(sample(&seq, &[1.0, 3.0, 2.0], RowPlan::Gumbel, &drawn).unwrap(), 1);
    let tilted = Tensor::new(&[0.999f32, 1.0e-6, 1.0e-6], &Device::Cpu).unwrap();
    let chosen = sample_gumbel_max_idx(&row(&[1.0, 1.5, 1.0]), 1.0f64.to_bits(), &tilted).unwrap();
    assert_eq!(chosen.to_scalar::<u32>().unwrap(), 0);
    let cold = sample_gumbel_max_idx(&row(&[1.0, 1.5, 1.0]), 0.0f64.to_bits(), &tilted).unwrap();
    assert_eq!(cold.to_scalar::<u32>().unwrap(), 1);
}

#[test]
fn likeliest_tokens_are_cut_at_top_p() {
    let plan = |masked| RowPlan::TopK { k: 2, masked, on_cpu: false };
    let indices = Tensor::new(&[3u32, 1], &Device::Cpu).unwrap();
    // The noise favours the second candidate, which top-p rules out where the first is enough.
    let tilted = Tensor::new(&[1.0e-6f32, 0.999], &Device::Cpu).unwrap();
    let drawn = RowDraw::Candidates { indices, noise: Some(tilted) };
    let values = [0.0, 6.0, 0.0, 7.0];
    let open = sequence(Some(1.0), None, Some(2));
    assert_eq!(sample(&open, &values, plan(false), &drawn).unwrap(), 1);
    let nucleus = sequence(Some(1.0), Some(0.5), Some(2));
    let narrow = [0.0, -20.0, 0.0, 7.0];
    assert_eq!(sample(&nucleus, &narrow, plan(true), &drawn).unwrap(), 3);
}

#[test]
fn host_sampler_chooses_among_candidates() {
    let seq = sequence(Some(0.7), Some(0.9), None);
    let values = [0.0, 50.0, 0.0, -50.0];
    assert_eq!(sample(&seq, &values, RowPlan::Processor, &RowDraw::Nothing).unwrap(), 1);
    let indices = Tensor::new(&[1u32, 3], &Device::Cpu).unwrap();
    let drawn = RowDraw::Candidates { indices, noise: None };
    let on_cpu = RowPlan::TopK { k: 2, masked: true, on_cpu: true };
    assert_eq!(sample(&seq, &values, on_cpu, &drawn).unwrap(), 1);
    assert_eq!(token_at_place(&vec![7, 8], 1), 8);
    assert_eq!(token_at_place(&vec![7, 8], 2), 7);
}

#[test]
fn missing_draws_are_reported() {
    let seq = sequence(Some(0.7), None, None);
    let missing = |plan, drawn: &RowDraw| {
        matches!(sample(&seq, &[1.0, 2.0], plan, drawn), Err(SamplingError::DrawMissing))
    };
    assert!(missing(RowPlan::Gumbel, &RowDraw::Nothing));
    let top_k = RowPlan::TopK { k: 2, masked: false, on_cpu: false };
    assert!(missing(top_k, &RowDraw::Noise(noise(2))));
    let indices = Tensor::new(&[1u32, 0], &Device::Cpu).unwrap();
    assert!(missing(top_k, &RowDraw::Candidates { indices, noise: None }));
    let short = Tensor::new(&[1u32], &Device::Cpu).unwrap();
    assert!(missing(top_k, &RowDraw::Candidates { indices: short, noise: Some(noise(2)) }));
}

#[test]
fn logits_are_prepared_as_rows_of_singles() {
    let logits = Tensor::zeros((2, 1, 3), DType::BF16, &Device::Cpu).unwrap();
    let rows = prepare_batch_sampling_logits(&logits).unwrap();
    assert_eq!((rows.dims(), rows.dtype()), (&[2usize, 3][..], DType::F32));
    assert_eq!(take_row(&rows, 1).unwrap().dims(), &[3]);
    let one = Tensor::zeros((1, 1, 3), DType::BF16, &Device::Cpu).unwrap();
    assert_eq!(prepare_row(&one).unwrap().dims(), &[3]);
}

#[test]
fn greedy_batch_refuses_what_is_not_greedy() {
    let logits = Tensor::zeros((2, 3), DType::F32, &Device::Cpu).unwrap();
    let greedy = sequence(Some(0.0), None, None);
    let other = sequence(Some(0.7), None, None);
    let mut buffers = SamplingBuffers::new();
    let result = sample_batch_greedy(&logits, &[&greedy, &other], &[true, true], &mut buffers);
    assert!(matches!(result, Err(SamplingError::NonGreedyRow)));
    assert!(sample_batch_greedy(&logits, &[&greedy, &other], &[true, false], &mut buffers).is_ok());
    let result = sample_batch_greedy(&logits, &[&greedy], &[true, true], &mut buffers);
    assert!(matches!(result, Err(SamplingError::LengthMismatch)));
}

#[test]
fn device_batches_are_planned() {
    let plain = sequence(Some(0.0), None, None);
    let mut penalised = sequence(Some(0.0), None, None);
    penalised.repetition_penalty = 1.5f32.to_bits();
    assert!(matches!(
        plan_batch_greedy(&[&plain, &plain], &[true, true], true).unwrap(),
        BatchGreedyPlan::CudaPlain
    ));
    assert!(matches!(
        plan_batch_greedy(&[&plain, &penalised], &[true, true], true).unwrap(),
        BatchGreedyPlan::CudaPenalty(_)
    ));
    assert!(matches!(
        plan_batch_greedy(&[&plain], &[true], false).unwrap(),
        BatchGreedyPlan::TensorPath
    ));
    let top_k = sequence(Some(0.7), Some(0.9), Some(20));
    let plan = plan_batch_non_greedy(&[&plain, &top_k], &[true, true], true).unwrap().unwrap();
    assert_eq!((plan.rows.len(), plan.active_rows), (2, 2));
    let too_wide = sequence(Some(0.7), Some(0.9), Some(65));
    assert!(plan_batch_non_greedy(&[&too_wide], &[true], true).unwrap().is_none());
}

#[test]
fn noise_of_another_type_is_missing() {
    let seq = sequence(Some(0.5), None, None);
    let whole = Tensor::new(&[1u32, 1, 1], &Device::Cpu).unwrap();
    let result = sample(&seq, &[1.0, 3.0, 2.0], RowPlan::Gumbel, &RowDraw::Noise(whole));
    assert!(matches!(result, Err(SamplingError::DrawMissing)));
    let doubles = Tensor::new(&[0.5f64, 0.5], &Device::Cpu).unwrap();
    assert!(!is_noise_for(&row(&[1.0, 2.0]), &doubles));
    assert!(is_noise_for(&row(&[1.0, 2.0]), &noise(2)));
    let indices = Tensor::new(&[1u32, 2], &Device::Cpu).unwrap();
    let drawn = RowDraw::Candidates { indices, noise: Some(doubles) };
    let plan = RowPlan::TopK { k: 2, masked: false, on_cpu: false };
    let result = sample(&seq, &[1.0, 3.0, 2.0], plan, &drawn);
    assert!(matches!(result, Err(SamplingError::DrawMissing)));
}

#[test]
fn logits_keep_their_type_in_a_random_choice() {
    for dtype in [DType::BF16, DType::F16, DType::F64] {
        let logits = row(&[1.0, 3.0, 2.0]).to_dtype(dtype).unwrap();
        let drawn = noise(3).to_dtype(dtype).unwrap();
        for temperature in [0.0f64, 0.5, 1.0] {
            let chosen = sample_gumbel_max_idx(&logits, temperature.to_bits(), &drawn).unwrap();
            assert_eq!(chosen.to_scalar::<u32>().unwrap(), 1);
        }
    }
    // At half the temperature, the lead of the second logit outweighs the noise.
    let tilted = Tensor::new(&[0.8f32, 0.5], &Device::Cpu).unwrap();
    let choose = |temperature: f64| {
        let chosen = sample_gumbel_max_idx(&row(&[1.0, 2.0]), temperature.to_bits(), &tilted);
        chosen.unwrap().to_scalar::<u32>().unwrap()
    };
    assert_eq!((choose(1.0), choose(0.5)), (0, 1));
}

#[test]
fn random_choice_needs_elements_and_noise_of_their_shape() {
    let one = 1.0f64.to_bits();
    assert!(sample_gumbel_max_idx(&row(&[]), 0, &noise(1)).is_err());
    assert!(sample_gumbel_max_idx(&row(&[1.0, 2.0]), one, &noise(3)).is_err());
    let point = Tensor::new(1.0f32, &Device::Cpu).unwrap();
    assert!(sample_gumbel_max_idx(&point, 0.5f64.to_bits(), &noise(1)).is_err());
    assert!(likeliest(&row(&[])).is_err());
    assert!(likeliest(&point).is_err());
    assert_eq!(likeliest(&row(&[1.0, 4.0])).unwrap().to_scalar::<u32>().unwrap(), 1);
}

#[test]
fn single_rows_need_dimensions() {
    let shape = |dims: &[usize]| Tensor::zeros(dims, DType::F32, &Device::Cpu).unwrap();
    assert_eq!(prepare_row(&shape(&[4])).unwrap().dims(), &[4]);
    assert_eq!(prepare_row(&shape(&[2, 1, 3])).unwrap().dims(), &[2, 1, 3]);
    assert_eq!(prepare_row(&shape(&[1, 2, 3])).unwrap().dims(), &[2, 3]);
    assert!(prepare_row(&shape(&[1])).is_err());
    assert!(prepare_row(&shape(&[])).is_err());
}

#[test]
fn greedy_batch_takes_rows_that_look_back_at_nothing() {
    let logits = Tensor::new(&[[1.0f32, 5.0, 2.0], [7.0, 3.0, 4.0]], &Device::Cpu).unwrap();
    let mut blind = sequence(Some(0.0), None, None);
    blind.repetition_penalty = 2.0f32.to_bits();
    blind.repeat_last_n = 0;
    let mut buffers = SamplingBuffers::new();
    let both = [&blind, &blind];
    let sample = sample_batch_greedy(&logits, &both, &[true, true], &mut buffers).unwrap();
    assert_eq!(sample.tokens, vec![1, 0]);
    let three = [&blind, &blind, &blind];
    let result = sample_batch_greedy(&logits, &three, &[true, true, true], &mut buffers);
    assert!(matches!(result, Err(SamplingError::Failed(_))));
}

#[test]
fn penalties_need_a_row_of_singles_with_their_tokens() {
    let plain = row(&[1.0, -2.0, 3.0]);
    assert!(is_on_cpu(&plain));
    assert!(can_penalise_on_cpu(&plain, &[0, 2]));
    assert!(!can_penalise_on_cpu(&plain, &[0, 3]));
    let penalty = 2.0f32.to_bits();
    assert!(apply_repeat_penalty_inplace(row(&[1.0, -2.0]), penalty, &[0, 5]).is_err());
    let done = apply_repeat_penalty_inplace(plain, penalty, &[0, 1]).unwrap();
    assert_eq!(done.to_vec1::<f32>().unwrap(), vec![0.5, -4.0, 3.0]);
    let halves = done.to_dtype(DType::BF16).unwrap();
    assert!(is_on_cpu(&halves));
    assert!(!can_penalise_on_cpu(&halves, &[0]));
    let block = Tensor::zeros((2, 3), DType::F32, &Device::Cpu).unwrap();
    assert!(!can_penalise_on_cpu(&block, &[0]));
}

#[test]
fn penalised_greedy_batches_succeed_on_the_cpu() {
    let mut penalised = sequence(Some(0.0), None, None);
    penalised.repetition_penalty = 2.0f32.to_bits();
    let plain = sequence(Some(0.0), None, None);
    let logits =
        Tensor::new(vec![vec![3.0f32, 2.0, 1.0], vec![3.0, 2.0, 1.0]], &Device::Cpu).unwrap();
    let mut buffers = SamplingBuffers::new();
    let sampled =
        sample_batch_greedy(&logits, &[&penalised, &plain], &[true, true], &mut buffers).unwrap();
    assert_eq!(sampled.tokens, vec![1, 0]);
}

#[test]
fn single_sequences_need_no_singles_on_a_device_with_a_kernel() {
    let logits = Tensor::zeros((1, 1, 4), DType::BF16, &Device::Cpu).unwrap();
    let greedy = sequence(Some(0.0), None, None);
    match start_sample(&greedy, &logits, true).unwrap() {
        SampleStep::DeviceArgmax(row) => {
            assert_eq!((row.dims(), row.dtype()), (&[4][..], DType::BF16));
        }
        SampleStep::Row(_) => panic!("the kernel takes BF16"),
    }
    let mut penalised = sequence(Some(0.0), None, None);
    penalised.repetition_penalty = 1.2f32.to_bits();
    for (seq, kernel) in [(&greedy, false), (&penalised, true), (&sequence(None, None, None), true)] {
        match start_sample(seq, &logits, kernel).unwrap() {
            SampleStep::Row(row) => {
                assert_eq!((row.dims(), row.dtype()), (&[4][..], DType::F32));
            }
            SampleStep::DeviceArgmax(_) => panic!("singles are needed"),
        }
    }
    let flat = Tensor::zeros(1, DType::F32, &Device::Cpu).unwrap();
    assert!(start_sample(&greedy, &flat, true).is_err());
}
