# crane_oai

A continuous-batching inference engine for Qwen3 models, and the server around it, which speaks
the OpenAI and SGLang interfaces. The engine's rules are a Verus library: every function in `src/`
has a contract, and Verus proves that it keeps it.

## Layout

| Part | What it holds |
| --- | --- |
| `src/engine/` | Requests, scheduling, prefill and decode steps, KV memory, eviction, model detection |
| `src/paged_kv/` | Paged key/value storage: page allocation, page tables, copy and gather plans |
| `src/sampling/` | Penalties, greedy and random choice of tokens, buffers |
| `src/prefix_cache.rs` | Caches of common prompt prefixes |
| `src/cuda_graph.rs` | When a decode round runs as a captured graph |
| `src/memory.rs`, `src/settings.rs`, `src/stats.rs` | Limits, environment settings, statistics |
| `src/tensors.rs`, `src/tensor_math.rs`, `src/vocabulary.rs`, `src/clock.rs` | What is taken from candle, tokenizers and the standard library |
| `src/arith.rs`, `src/floats.rs`, `src/text.rs` | Numbers, bit patterns of floats, text |
| `app/` | The program: arguments, HTTP, the engine thread, the model and its kernels |
| `tests/` | Tests of the library as its users see it |

## How the engine and the program share the work

The library decides, the program acts. `engine::state::InferenceEngine` holds all state. The
engine thread in `app/runner.rs` asks it what to run next, performs that on the model, and hands
the outcome back. A prefill (`engine::prefill`) and a decode of one sequence after the other
(`engine::sequential`) are machines that answer each event with the next action. A batched decode
step is set up, sampled and settled as `engine::batch_flow` decides, by the rules in
`engine::decode_setup`, `decode`, `decode_rounds` and `decode_finish`; `engine::shadow_check` can
compare pages with the caches they stand for. Time, random numbers, channels and device kernels
stay outside.

Floats appear in the library as their bit patterns only; averages are exact quotients.

## What is proved

Contracts are stated over mathematical models: page tables as sequences of blocks, stores as maps
from pages to values, the engine as a record that each operation changes in a stated way. Laws
that span several operations are the public proof functions whose names begin with `law_`, such
as that pages are never shared (`paged_kv::ownership`), that what is written to pages is read back
(`paged_kv::storage_laws`), that requests start in the order in which they came
(`engine::scheduler`), that the rounds of a batched decode step add up (`engine::decode_laws`), and
that an eviction loses nothing but generated tokens (`engine::eviction`).

What is not proved but taken from other crates stands behind items with a doc comment that says
what is claimed: tensor operations of candle, the tokenizer, the clock and the case mappings of
the standard library.
