//! The engine: sequences, scheduling, memory budget, paged cache upkeep and decode steps.
//!
//! The engine decides and keeps the books; model forward passes, channels and
//! clocks stay outside. Each method says which outside results it takes and
//! what is to be done next.

pub mod append;
pub mod backend;
pub mod batch_flow;
pub mod caches;
pub mod config;
pub mod shadow;
pub mod shadow_check;
pub mod state;
pub mod stats_laws;
pub mod steps;
pub mod stop_laws;
pub mod turns;
pub mod decode;
pub mod decode_finish;
pub mod decode_laws;
pub mod decode_rounds;
pub mod decode_setup;
pub mod eviction;
pub mod extract;
pub mod gather;
pub mod lifecycle;
pub mod model_factory;
pub mod paged;
pub mod prefill;
pub mod request_laws;
pub mod residency;
pub mod rows;
pub mod scheduler;
pub mod sequence;
pub mod sequential;
