//! Continuous-batching inference engine core for an OpenAI-compatible server.
//!
//! The crate holds the decisions and the data structures of the engine: the
//! paged KV cache, the prefix cache, admission and eviction, the decode round
//! state, sampling plans, graph-capture planning, statistics and model
//! resolution. Everything here is proved against the contracts it states.

pub mod arith;
pub mod chat_template;
pub mod clock;
pub mod cuda_graph;
pub mod cuda_memory;
pub mod elements;
pub mod engine;
pub mod floats;
pub mod http;
pub mod memory;
pub mod openai_api;
pub mod paged_kv;
pub mod prefix_cache;
pub mod sampling;
pub mod settings;
pub mod stats;
pub mod tensor_math;
pub mod tensors;
pub mod text;
pub mod vocabulary;
