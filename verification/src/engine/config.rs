//! Engine settings: what the model offers and what the environment asks for.
use crate::cuda_graph::{CudaGraphDecodePlanner, CudaGraphEnv};
use crate::paged_kv::{PagedKvLayout, DEFAULT_BLOCK_SIZE};
use crate::settings;
use crate::tensors;
use crate::text;
use candle_core::{DType, Device};
use vstd::prelude::*;

verus! {

/// What the engine needs to know of a model.
pub struct ModelTraits {
    pub num_layers: usize,
    /// Keys and values can be taken out of the model and put back.
    pub supports_kv_swap: bool,
    /// One forward pass can serve several sequences.
    pub supports_batch_decode: bool,
    pub device: Device,
    pub dtype: DType,
    pub kv_layout: Option<PagedKvLayout>,
    /// Generation of the workspace that batch decode runs in.
    pub workspace_generation: u64,
}

/// Raw values of the engine's variables.
pub struct EngineEnv<'a> {
    pub paged_kv_block_size: Option<&'a str>,
    pub paged_kv_shadow_validate: Option<&'a str>,
    pub paged_kv_shadow_max_layers: Option<&'a str>,
    pub paged_kv_native_append: Option<&'a str>,
    pub paged_kv_pressure_reserve_mb: Option<&'a str>,
    pub paged_kv_gather_extract: Option<&'a str>,
    pub paged_kv_attention: Option<&'a str>,
    pub paged_kv_attention_min_active_rows: Option<&'a str>,
    pub paged_kv_attention_min_seq_len: Option<&'a str>,
    pub paged_kv_batched_setup: Option<&'a str>,
    pub idle_cuda_mem_trim_secs: Option<&'a str>,
    pub profile: Option<&'a str>,
    pub sched_wait_batch_us: Option<&'a str>,
    pub sched_wait_batch_target: Option<&'a str>,
    pub sched_wait_batch_poll_us: Option<&'a str>,
    pub disable_gpu_mem_hard_check: Option<&'a str>,
    pub decode_device_token_input: Option<&'a str>,
    pub graph_width_bucket: Option<&'a str>,
    pub graph_no_reuse: Option<&'a str>,
    pub graph: CudaGraphEnv<'a>,
}

/// Settings that stay as they are while the engine runs.
pub struct EngineSettings {
    pub num_layers: usize,
    pub supports_kv_swap: bool,
    pub supports_batch_decode: bool,
    /// Most sequences that run at once.
    pub max_concurrent: usize,
    /// Tokens to decode for one sequence before switching.
    pub decode_tokens_per_seq: usize,
    pub paged_kv_block_size: usize,
    pub paged_kv_shadow_validate: bool,
    pub paged_kv_shadow_max_layers: usize,
    pub paged_kv_native_append: bool,
    /// Headroom below the memory limit within which copies into pages are skipped.
    pub paged_kv_pressure_reserve_bytes: u64,
    pub paged_kv_gather_extract: bool,
    pub paged_kv_attention: bool,
    pub paged_kv_attention_min_active_rows: usize,
    pub paged_kv_attention_min_seq_len: usize,
    pub paged_kv_batched_setup: bool,
    /// Seconds of idleness before device memory is trimmed.
    pub idle_cuda_mem_trim_secs: Option<u64>,
    pub profile_enabled: bool,
    /// Longest wait for more requests while the batch is below its target; 0 for none.
    pub sched_wait_batch_us: u64,
    pub sched_wait_batch_target: usize,
    pub sched_wait_batch_poll_us: u64,
    pub gpu_mem_hard_check_disabled: bool,
    pub decode_device_token_input: bool,
    pub graph_width_bucket: bool,
    pub graph_no_reuse: bool,
    pub cuda_graph_decode: CudaGraphDecodePlanner,
}

/// Concurrent sequences that a model can serve: one where keys and values cannot be swapped.
pub open spec fn served_at_once(supports_kv_swap: bool, max_concurrent: usize) -> usize {
    if supports_kv_swap || max_concurrent == 0 {
        max_concurrent
    } else {
        1
    }
}

/// The pages of the model can live on its device.
pub open spec fn pages_on_device(model: ModelTraits) -> bool {
    tensors::device_is_cuda(model.device) && tensors::dtype_is_bf16(model.dtype)
}

/// `value` mebibytes in bytes, as far as 64 bits hold them.
pub open spec fn mebibytes(value: usize) -> u64 {
    (value as u64) << 20
}

impl EngineSettings {
    /// These are the settings of `model` under `env`.
    pub open spec fn follow(
        &self,
        model: ModelTraits,
        max_concurrent: usize,
        decode_tokens_per_seq: usize,
        env: EngineEnv<'_>,
    ) -> bool {
        let paged = pages_on_device(model);
        let served = served_at_once(model.supports_kv_swap, max_concurrent);
        &&& self.num_layers == model.num_layers
        &&& self.supports_kv_swap == model.supports_kv_swap
        &&& self.supports_batch_decode == model.supports_batch_decode
        &&& self.max_concurrent == served
        &&& self.decode_tokens_per_seq == if decode_tokens_per_seq == 0 {
            1
        } else {
            decode_tokens_per_seq
        }
        &&& self.paged_kv_block_size == settings::positive(
            settings::text_of(env.paged_kv_block_size),
            DEFAULT_BLOCK_SIZE as int,
        )
        &&& self.paged_kv_shadow_validate == settings::flag(
            settings::text_of(env.paged_kv_shadow_validate),
            false,
        )
        &&& self.paged_kv_shadow_max_layers == clamped_layers(
            settings::positive(
                settings::text_of(env.paged_kv_shadow_max_layers),
                model.num_layers as int,
            ),
            model.num_layers as int,
        )
        &&& self.paged_kv_native_append == settings::flag(
            settings::text_of(env.paged_kv_native_append),
            paged,
        )
        &&& self.paged_kv_pressure_reserve_bytes == mebibytes(
            settings::positive(
                settings::text_of(env.paged_kv_pressure_reserve_mb),
                512,
            ) as usize,
        )
        &&& self.paged_kv_gather_extract == (self.paged_kv_native_append && settings::flag(
            settings::text_of(env.paged_kv_gather_extract),
            paged,
        ))
        &&& self.paged_kv_attention == (self.paged_kv_native_append && settings::flag(
            settings::text_of(env.paged_kv_attention),
            false,
        ))
        &&& self.paged_kv_attention_min_active_rows == settings::positive(
            settings::text_of(env.paged_kv_attention_min_active_rows),
            1,
        )
        &&& self.paged_kv_attention_min_seq_len == settings::positive(
            settings::text_of(env.paged_kv_attention_min_seq_len),
            1024,
        )
        &&& self.paged_kv_batched_setup == settings::flag(
            settings::text_of(env.paged_kv_batched_setup),
            false,
        )
        &&& match self.idle_cuda_mem_trim_secs {
            Some(secs) => settings::seconds(settings::text_of(env.idle_cuda_mem_trim_secs), 120)
                == Some(secs as int),
            None => settings::seconds(settings::text_of(env.idle_cuda_mem_trim_secs), 120) is None,
        }
        &&& self.profile_enabled == settings::flag(settings::text_of(env.profile), false)
        &&& self.sched_wait_batch_us == settings::positive(
            settings::text_of(env.sched_wait_batch_us),
            0,
        )
        &&& self.sched_wait_batch_target == settings::positive(
            settings::text_of(env.sched_wait_batch_target),
            served as int,
        )
        &&& self.sched_wait_batch_poll_us == settings::positive(
            settings::text_of(env.sched_wait_batch_poll_us),
            50,
        )
        &&& self.gpu_mem_hard_check_disabled == settings::flag(
            settings::text_of(env.disable_gpu_mem_hard_check),
            false,
        )
        &&& self.decode_device_token_input == settings::flag(
            settings::text_of(env.decode_device_token_input),
            true,
        )
        &&& self.graph_width_bucket == settings::flag(
            settings::text_of(env.graph_width_bucket),
            true,
        )
        &&& self.graph_no_reuse == settings::flag(settings::text_of(env.graph_no_reuse), false)
        &&& self.cuda_graph_decode.follows(env.graph)
    }

    pub fn from_env(
        model: &ModelTraits,
        max_concurrent: usize,
        decode_tokens_per_seq: usize,
        env: &EngineEnv<'_>,
    ) -> (result: Self)
        ensures
            result.follow(*model, max_concurrent, decode_tokens_per_seq, *env),
    {
        let served: usize = if model.supports_kv_swap || max_concurrent == 0 {
            max_concurrent
        } else {
            1
        };
        let paged = model.device.is_cuda() && tensors::is_bf16(model.dtype);
        let native = settings::env_flag_default(env.paged_kv_native_append, paged);
        let reserve_mb: usize = settings::env_usize(env.paged_kv_pressure_reserve_mb, 512);
        let reserve: u64 = (reserve_mb as u64) << 20;
        assert(reserve == mebibytes(reserve_mb));
        let layers: usize = settings::env_usize(env.paged_kv_shadow_max_layers, model.num_layers);
        EngineSettings {
            num_layers: model.num_layers,
            supports_kv_swap: model.supports_kv_swap,
            supports_batch_decode: model.supports_batch_decode,
            max_concurrent: served,
            decode_tokens_per_seq: if decode_tokens_per_seq == 0 {
                1
            } else {
                decode_tokens_per_seq
            },
            paged_kv_block_size: settings::env_usize(env.paged_kv_block_size, DEFAULT_BLOCK_SIZE),
            paged_kv_shadow_validate: settings::env_flag(env.paged_kv_shadow_validate),
            paged_kv_shadow_max_layers: if layers > model.num_layers {
                if model.num_layers == 0 {
                    1
                } else {
                    model.num_layers
                }
            } else if layers == 0 {
                1
            } else {
                layers
            },
            paged_kv_native_append: native,
            paged_kv_pressure_reserve_bytes: reserve,
            paged_kv_gather_extract: native && settings::env_flag_default(
                env.paged_kv_gather_extract,
                paged,
            ),
            paged_kv_attention: native && settings::env_flag_default(env.paged_kv_attention, false),
            paged_kv_attention_min_active_rows: settings::env_usize(
                env.paged_kv_attention_min_active_rows,
                1,
            ),
            paged_kv_attention_min_seq_len: settings::env_usize(
                env.paged_kv_attention_min_seq_len,
                1024,
            ),
            paged_kv_batched_setup: settings::env_flag_default(env.paged_kv_batched_setup, false),
            idle_cuda_mem_trim_secs: settings::env_duration_secs(env.idle_cuda_mem_trim_secs, 120),
            profile_enabled: settings::env_flag(env.profile),
            sched_wait_batch_us: settings::env_usize(env.sched_wait_batch_us, 0) as u64,
            sched_wait_batch_target: settings::env_usize(env.sched_wait_batch_target, served),
            sched_wait_batch_poll_us: settings::env_usize(env.sched_wait_batch_poll_us, 50) as u64,
            gpu_mem_hard_check_disabled: settings::env_flag(env.disable_gpu_mem_hard_check),
            decode_device_token_input: settings::env_flag_default(
                env.decode_device_token_input,
                true,
            ),
            graph_width_bucket: settings::env_flag_default(env.graph_width_bucket, true),
            graph_no_reuse: settings::env_flag(env.graph_no_reuse),
            cuda_graph_decode: CudaGraphDecodePlanner::from_env(&env.graph),
        }
    }
}

/// A number of layers, at most all of them and at least one.
pub open spec fn clamped_layers(asked: int, all: int) -> int {
    let most = if asked <= all {
        asked
    } else {
        all
    };
    if most < 1 {
        1
    } else {
        most
    }
}

/// A model that cannot swap keys and values serves one sequence at a time, any other as many as
/// configured.
pub proof fn law_swap_decides_who_is_served(supports_kv_swap: bool, max_concurrent: usize)
    ensures
        served_at_once(supports_kv_swap, max_concurrent) <= max_concurrent,
        supports_kv_swap ==> served_at_once(supports_kv_swap, max_concurrent) == max_concurrent,
        !supports_kv_swap ==> served_at_once(supports_kv_swap, max_concurrent) <= 1,
        max_concurrent > 0 ==> served_at_once(supports_kv_swap, max_concurrent) > 0,
{
}

/// As many layers as asked for, if the model has them and there is one at all.
pub proof fn law_layers_are_clamped(asked: int, all: int)
    requires
        asked >= 0,
        all >= 1,
    ensures
        1 <= clamped_layers(asked, all) <= all,
        1 <= asked <= all ==> clamped_layers(asked, all) == asked,
        asked > all ==> clamped_layers(asked, all) == all,
{
}

/// The variable says yes.
pub open spec fn switched_on(value: Option<&str>) -> bool {
    value matches Some(text) && settings::says_yes(text@)
}

/// The variable says no.
pub open spec fn switched_off(value: Option<&str>) -> bool {
    value matches Some(text) && settings::says_no(text@)
}

/// The variable holds this number, written out.
pub open spec fn spells(value: Option<&str>, number: nat) -> bool {
    value matches Some(text) && text@ == text::decimal(number)
}

/// Each switch moves its own setting, whatever the others are: yes turns it on, where what it rests
/// on is there, and no turns it off. Attention over pages and gathering from them rest on pages,
/// and a graph is captured only where graphs are used.
pub proof fn law_switches_move_their_settings(
    chosen: EngineSettings,
    model: ModelTraits,
    max_concurrent: usize,
    decode_tokens_per_seq: usize,
    env: EngineEnv<'_>,
)
    requires
        chosen.follow(model, max_concurrent, decode_tokens_per_seq, env),
    ensures
        switched_on(env.paged_kv_shadow_validate) ==> chosen.paged_kv_shadow_validate,
        switched_off(env.paged_kv_shadow_validate) ==> !chosen.paged_kv_shadow_validate,
        env.paged_kv_shadow_validate is None ==> !chosen.paged_kv_shadow_validate,
        switched_on(env.paged_kv_native_append) ==> chosen.paged_kv_native_append,
        switched_off(env.paged_kv_native_append) ==> !chosen.paged_kv_native_append,
        switched_on(env.paged_kv_batched_setup) ==> chosen.paged_kv_batched_setup,
        switched_off(env.paged_kv_batched_setup) ==> !chosen.paged_kv_batched_setup,
        env.paged_kv_batched_setup is None ==> !chosen.paged_kv_batched_setup,
        switched_on(env.profile) ==> chosen.profile_enabled,
        switched_off(env.profile) ==> !chosen.profile_enabled,
        env.profile is None ==> !chosen.profile_enabled,
        switched_on(env.disable_gpu_mem_hard_check) ==> chosen.gpu_mem_hard_check_disabled,
        switched_off(env.disable_gpu_mem_hard_check) ==> !chosen.gpu_mem_hard_check_disabled,
        env.disable_gpu_mem_hard_check is None ==> !chosen.gpu_mem_hard_check_disabled,
        switched_on(env.decode_device_token_input) ==> chosen.decode_device_token_input,
        switched_off(env.decode_device_token_input) ==> !chosen.decode_device_token_input,
        env.decode_device_token_input is None ==> chosen.decode_device_token_input,
        switched_on(env.graph_width_bucket) ==> chosen.graph_width_bucket,
        switched_off(env.graph_width_bucket) ==> !chosen.graph_width_bucket,
        env.graph_width_bucket is None ==> chosen.graph_width_bucket,
        switched_on(env.graph_no_reuse) ==> chosen.graph_no_reuse,
        switched_off(env.graph_no_reuse) ==> !chosen.graph_no_reuse,
        env.graph_no_reuse is None ==> !chosen.graph_no_reuse,
        switched_on(env.paged_kv_gather_extract) && chosen.paged_kv_native_append ==> chosen.paged_kv_gather_extract,
        switched_off(env.paged_kv_gather_extract) ==> !chosen.paged_kv_gather_extract,
        switched_on(env.paged_kv_attention) && chosen.paged_kv_native_append ==> chosen.paged_kv_attention,
        switched_off(env.paged_kv_attention) ==> !chosen.paged_kv_attention,
        env.paged_kv_attention is None ==> !chosen.paged_kv_attention,
        switched_on(env.graph.enabled) ==> chosen.cuda_graph_decode.enabled,
        switched_off(env.graph.enabled) ==> !chosen.cuda_graph_decode.enabled,
        switched_on(env.graph.capture) && chosen.cuda_graph_decode.enabled ==> chosen.cuda_graph_decode.capture_runtime,
        switched_off(env.graph.capture) ==> !chosen.cuda_graph_decode.capture_runtime,
        switched_on(env.graph.fixed_width) && chosen.cuda_graph_decode.enabled ==> chosen.cuda_graph_decode.fixed_width_decode,
        switched_off(env.graph.fixed_width) ==> !chosen.cuda_graph_decode.fixed_width_decode,
        switched_on(env.graph.capture_sampling) && chosen.cuda_graph_decode.capture_runtime ==> chosen.cuda_graph_decode.capture_sampling,
        switched_off(env.graph.capture_sampling) ==> !chosen.cuda_graph_decode.capture_sampling,
        chosen.paged_kv_attention || chosen.paged_kv_gather_extract
            ==> chosen.paged_kv_native_append,
        env.paged_kv_native_append is None ==> chosen.paged_kv_native_append == (
        tensors::device_is_cuda(model.device) && tensors::dtype_is_bf16(model.dtype)),
{
    assert forall|text: &str| #[trigger] settings::says_no(text@) implies !settings::says_yes(
        text@,
    ) by {
        settings::law_yes_is_not_no(text@);
    }
}

/// Each number is the one that its variable spells, and a default where the variable is not set.
/// The reserve is given in mebibytes.
pub proof fn law_numbers_are_those_spelled(
    chosen: EngineSettings,
    model: ModelTraits,
    max_concurrent: usize,
    decode_tokens_per_seq: usize,
    env: EngineEnv<'_>,
    number: nat,
)
    requires
        chosen.follow(model, max_concurrent, decode_tokens_per_seq, env),
        0 < number <= usize::MAX,
    ensures
        spells(env.paged_kv_block_size, number) ==> chosen.paged_kv_block_size == number,
        env.paged_kv_block_size is None ==> chosen.paged_kv_block_size == 16,
        spells(env.paged_kv_attention_min_active_rows, number) ==> chosen.paged_kv_attention_min_active_rows == number,
        env.paged_kv_attention_min_active_rows is None ==> chosen.paged_kv_attention_min_active_rows == 1,
        spells(env.paged_kv_attention_min_seq_len, number) ==> chosen.paged_kv_attention_min_seq_len == number,
        env.paged_kv_attention_min_seq_len is None ==> chosen.paged_kv_attention_min_seq_len == 1024,
        spells(env.sched_wait_batch_us, number) ==> chosen.sched_wait_batch_us == number,
        env.sched_wait_batch_us is None ==> chosen.sched_wait_batch_us == 0,
        spells(env.sched_wait_batch_poll_us, number) ==> chosen.sched_wait_batch_poll_us == number,
        env.sched_wait_batch_poll_us is None ==> chosen.sched_wait_batch_poll_us == 50,
        spells(env.sched_wait_batch_target, number) ==> chosen.sched_wait_batch_target == number,
        spells(env.idle_cuda_mem_trim_secs, number) ==> chosen.idle_cuda_mem_trim_secs == Some(
            number as u64,
        ),
        spells(env.paged_kv_pressure_reserve_mb, number) && number < 0x1000_0000_0000
            ==> chosen.paged_kv_pressure_reserve_bytes == number * 0x10_0000,
        chosen.decode_tokens_per_seq >= 1,
        decode_tokens_per_seq > 0 ==> chosen.decode_tokens_per_seq == decode_tokens_per_seq,
{
    settings::law_written_numbers_are_read(number, 0, 0);
    settings::law_written_numbers_are_read(number, 120, 0);
    settings::law_written_numbers_are_read(number, 512, 0);
    let value = number as u64;
    assert(value < 0x1000_0000_0000 ==> (value << 20) == value * 0x10_0000) by (bit_vector);
}

} // verus!
