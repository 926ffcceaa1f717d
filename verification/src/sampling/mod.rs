//! Token sampling: which way a token is chosen, and the tensor work around it.
//!
//! Sampling parameters are bit patterns of floating-point numbers. Random numbers, device
//! kernels and the state of the host-side sampler come from outside.

pub mod buffers;
pub mod draw;
pub mod laws;
pub mod plan;
pub mod recent;
pub mod rows;

pub use crate::clock::rand_seed;
pub use buffers::SamplingBuffers;
pub use draw::sample_from_f32_logits;
pub use plan::{
    is_greedy, is_greedy_no_penalty, BatchGreedyMode, BatchGreedySample, BatchNonGreedyMode,
    BatchNonGreedySample,
};
pub use rows::{
    apply_repeat_penalty_inplace, prepare_batch_sampling_logits, sample, sample_batch_greedy,
    sample_gumbel_max_idx, SampleStep,
};
