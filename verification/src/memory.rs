//! Limits on sequence length and device memory.
use crate::text;
use vstd::prelude::*;
use vstd::string::*;

verus! {

/// Device bytes that one byte of tracked KV cache costs, with padded copies, allocator slack and
/// intermediates.
pub const KV_GPU_OVERHEAD_FACTOR: u64 = 6;

/// Configuration for GPU memory limits.
#[derive(Debug, Clone, Copy, PartialEq, Eq, Structural)]
pub struct MemoryConfig {
    /// Most tokens per sequence, prompt and completion together; 0 for no limit.
    pub max_seq_len: usize,
    /// Limit on all GPU memory in use, in bytes; 0 for no limit.
    pub gpu_memory_limit_bytes: u64,
    /// GPU memory in use after the model was loaded and warmed up.
    pub baseline_gpu_bytes: u64,
}

/// How a memory limit was written.
#[derive(Debug)]
pub enum MemoryLimitText<'a> {
    /// Nothing or zero: no limit.
    Unlimited,
    /// A number of gibibytes, to be read in upper case.
    Gib(String),
    /// A number of mebibytes, to be read in upper case.
    Mib(String),
    /// A share of all memory, or a number of bytes.
    Plain(&'a str),
}

/// What `str::to_uppercase` makes of a text.
pub uninterp spec fn uppercase(text: Seq<char>) -> Seq<char>;

/// `str::to_uppercase`: the text with each character mapped to upper case by Unicode.
#[verifier::external_body]
fn to_uppercase(text: &str) -> (result: String)
    ensures
        result@ == uppercase(text@),
{
    text.to_uppercase()
}

/// The limit of a memory configuration as it is written: with a `G` or `M` behind a number, or
/// without.
pub open spec fn limit_kind(text: Seq<char>, kind: MemoryLimitText<'_>) -> bool {
    let plain = text::trimmed(text);
    let upper = uppercase(plain);
    match kind {
        MemoryLimitText::Unlimited => plain.len() == 0 || plain == "0"@,
        MemoryLimitText::Gib(number) => {
            &&& plain.len() > 0 && plain != "0"@
            &&& upper.len() > 0 && upper.last() == 'G'
            &&& number@ == text::trimmed(upper.drop_last())
        },
        MemoryLimitText::Mib(number) => {
            &&& plain.len() > 0 && plain != "0"@
            &&& upper.len() > 0 && upper.last() == 'M'
            &&& number@ == text::trimmed(upper.drop_last())
        },
        MemoryLimitText::Plain(number) => {
            &&& plain.len() > 0 && plain != "0"@
            &&& upper.len() == 0 || (upper.last() != 'G' && upper.last() != 'M')
            &&& number@ == plain
        },
    }
}

/// Reads how a memory limit is written.
pub fn memory_limit_text(text: &str) -> (result: MemoryLimitText<'_>)
    ensures
        limit_kind(text@, result),
{
    let plain = text::trim(text);
    if plain.unicode_len() == 0 || text::same_text(plain, "0") {
        return MemoryLimitText::Unlimited;
    }
    let upper = to_uppercase(plain);
    let n: usize = upper.as_str().unicode_len();
    if n == 0 {
        return MemoryLimitText::Plain(plain);
    }
    let last: char = upper.as_str().get_char(n - 1);
    let number = upper.as_str().substring_char(0, n - 1);
    assert(number@ =~= upper@.drop_last());
    if last == 'G' {
        return MemoryLimitText::Gib(String::from_str(text::trim(number)));
    }
    if last == 'M' {
        return MemoryLimitText::Mib(String::from_str(text::trim(number)));
    }
    MemoryLimitText::Plain(plain)
}

/// `a - b`, or 0 where that is negative.
pub open spec fn less(a: int, b: int) -> int {
    if a >= b {
        a - b
    } else {
        0
    }
}

impl MemoryConfig {
    /// A configuration with the given limits; nothing is in use yet.
    pub fn parse(max_seq_len: usize, gpu_memory_limit_bytes: u64) -> (result: Self)
        ensures
            result.max_seq_len == max_seq_len,
            result.gpu_memory_limit_bytes == gpu_memory_limit_bytes,
            result.baseline_gpu_bytes == 0,
    {
        MemoryConfig { max_seq_len, gpu_memory_limit_bytes, baseline_gpu_bytes: 0 }
    }

    /// Records what the loaded model uses.
    pub fn record_baseline(&mut self, used: u64)
        ensures
            *final(self) == (MemoryConfig { baseline_gpu_bytes: used, ..*old(self) }),
    {
        self.baseline_gpu_bytes = used;
    }

    /// KV cache bytes that the limit leaves room for; the largest `u64` without a limit.
    pub open spec fn kv_budget(&self) -> int {
        if self.gpu_memory_limit_bytes == 0 {
            u64::MAX as int
        } else {
            less(self.gpu_memory_limit_bytes as int, self.baseline_gpu_bytes as int)
                / KV_GPU_OVERHEAD_FACTOR as int
        }
    }

    pub fn kv_budget_bytes(&self) -> (result: u64)
        ensures
            result == self.kv_budget(),
    {
        let limit: u64 = self.gpu_memory_limit_bytes;
        if limit == 0 {
            return u64::MAX;
        }
        let raw: u64 = limit.saturating_sub(self.baseline_gpu_bytes);
        raw / KV_GPU_OVERHEAD_FACTOR
    }

    /// The prompt is longer than any sequence may get.
    pub open spec fn rejects(&self, prompt_len: int) -> bool {
        self.max_seq_len > 0 && prompt_len > self.max_seq_len
    }

    /// Tokens that a request may generate.
    pub open spec fn allowed_tokens(&self, prompt_len: int, requested: int) -> int {
        if self.max_seq_len == 0 {
            requested
        } else if requested <= less(self.max_seq_len as int, prompt_len) {
            requested
        } else {
            less(self.max_seq_len as int, prompt_len)
        }
    }

    pub fn effective_max_tokens(&self, prompt_len: usize, requested_max_tokens: usize) -> (result:
        usize)
        ensures
            result == self.allowed_tokens(prompt_len as int, requested_max_tokens as int),
    {
        if self.max_seq_len == 0 {
            return requested_max_tokens;
        }
        let remaining: usize = self.max_seq_len.saturating_sub(prompt_len);
        if requested_max_tokens <= remaining {
            requested_max_tokens
        } else {
            remaining
        }
    }

    /// New prefills have to wait. Without a limit, or with the check switched off, never; with
    /// no room at all, always; else where tracked bytes exceed the budget or, outside the
    /// cooldown after an eviction, the device is over the limit itself.
    pub open spec fn over_budget(
        &self,
        check_disabled: bool,
        tracked_kv_bytes: u64,
        cooldown: u32,
        gpu_used: u64,
    ) -> bool {
        if self.gpu_memory_limit_bytes == 0 || check_disabled {
            false
        } else {
            ||| self.kv_budget() == 0
            ||| tracked_kv_bytes > self.kv_budget()
            ||| cooldown == 0 && gpu_used > 0 && gpu_used > self.gpu_memory_limit_bytes
        }
    }

    pub fn is_over_kv_budget(
        &self,
        check_disabled: bool,
        tracked_kv_bytes: u64,
        cooldown: u32,
        gpu_used: u64,
    ) -> (result: bool)
        ensures
            result == self.over_budget(check_disabled, tracked_kv_bytes, cooldown, gpu_used),
    {
        let limit: u64 = self.gpu_memory_limit_bytes;
        if limit == 0 {
            return false;
        }
        if check_disabled {
            return false;
        }
        let budget: u64 = self.kv_budget_bytes();
        if budget == 0 {
            return true;
        }
        if tracked_kv_bytes > budget {
            return true;
        }
        cooldown == 0 && gpu_used > 0 && gpu_used > limit
    }
}

/// An accepted request never outgrows the sequence limit.
pub proof fn law_accepted_request_fits(config: MemoryConfig, prompt_len: int, requested: int)
    requires
        prompt_len >= 0,
        requested >= 0,
        config.max_seq_len > 0,
        !config.rejects(prompt_len),
    ensures
        prompt_len + config.allowed_tokens(prompt_len, requested) <= config.max_seq_len,
        config.allowed_tokens(prompt_len, requested) <= requested,
{
}

/// Within the KV budget, the cost that the budget allows for stays within the limit.
pub proof fn law_budget_keeps_limit(config: MemoryConfig, tracked_kv_bytes: int)
    requires
        config.gpu_memory_limit_bytes > 0,
        config.baseline_gpu_bytes <= config.gpu_memory_limit_bytes,
        0 <= tracked_kv_bytes <= config.kv_budget(),
    ensures
        config.baseline_gpu_bytes + tracked_kv_bytes * KV_GPU_OVERHEAD_FACTOR
            <= config.gpu_memory_limit_bytes,
{
}

/// Memory that adaptive defaults are derived from: the configured limit, but no more than is
/// free; what is free without a limit; 0 where nothing is known.
pub open spec fn runtime_budget(limit: u64, free: u64) -> u64 {
    if limit == 0 || (0 < free < limit) {
        free
    } else {
        limit
    }
}

pub fn effective_gpu_budget_bytes(memory_config: &MemoryConfig, free: u64) -> (result: u64)
    ensures
        result == runtime_budget(memory_config.gpu_memory_limit_bytes, free),
{
    if memory_config.gpu_memory_limit_bytes > 0 {
        if free > 0 && free < memory_config.gpu_memory_limit_bytes {
            return free;
        }
        return memory_config.gpu_memory_limit_bytes;
    }
    free
}

/// One gibibyte.
pub const GIB: u64 = 0x4000_0000;

/// Concurrent sequences and tokens per turn that suit a memory budget; middle values where it
/// is unknown.
pub open spec fn adaptive_defaults(budget_bytes: u64) -> (usize, usize) {
    if budget_bytes == 0 {
        (16, 16)
    } else if budget_bytes < 6 * GIB {
        (6, 16)
    } else if budget_bytes < 10 * GIB {
        (16, 16)
    } else if budget_bytes < 16 * GIB {
        (32, 32)
    } else {
        (64, 32)
    }
}

pub fn adaptive_runtime_defaults(budget_bytes: u64) -> (result: (usize, usize))
    ensures
        result == adaptive_defaults(budget_bytes),
{
    if budget_bytes == 0 {
        return (16, 16);
    }
    if budget_bytes < 6 * GIB {
        (6, 16)
    } else if budget_bytes < 10 * GIB {
        (16, 16)
    } else if budget_bytes < 16 * GIB {
        (32, 32)
    } else {
        (64, 32)
    }
}

/// The limits that the user asked for, and the adaptive defaults where they did not.
pub fn runtime_limits(
    budget_bytes: u64,
    max_concurrent: Option<usize>,
    decode_tokens_per_seq: Option<usize>,
) -> (result: (usize, usize))
    ensures
        result.0 == match max_concurrent {
            Some(asked) => asked,
            None => adaptive_defaults(budget_bytes).0,
        },
        result.1 == match decode_tokens_per_seq {
            Some(asked) => asked,
            None => adaptive_defaults(budget_bytes).1,
        },
{
    let (auto_concurrent, auto_tokens) = adaptive_runtime_defaults(budget_bytes);
    (
        match max_concurrent {
            Some(asked) => asked,
            None => auto_concurrent,
        },
        match decode_tokens_per_seq {
            Some(asked) => asked,
            None => auto_tokens,
        },
    )
}

/// More known memory never means smaller defaults.
pub proof fn law_defaults_grow(small: u64, large: u64)
    requires
        0 < small <= large,
    ensures
        adaptive_defaults(small).0 <= adaptive_defaults(large).0,
        adaptive_defaults(small).1 <= adaptive_defaults(large).1,
{
}

/// A request may generate all that it asks for, unless the sequence limit comes first: then
/// prompt and completion fill the limit. Only a prompt that is longer than the limit is refused,
/// and none is where there is no limit.
pub proof fn law_allowance_is_the_largest(config: MemoryConfig, prompt_len: int, requested: int)
    requires
        prompt_len >= 0,
        requested >= 0,
    ensures
        0 <= config.allowed_tokens(prompt_len, requested) <= requested,
        config.max_seq_len == 0 ==> config.allowed_tokens(prompt_len, requested) == requested
            && !config.rejects(prompt_len),
        config.max_seq_len > 0 && config.allowed_tokens(prompt_len, requested) < requested
            ==> prompt_len + config.allowed_tokens(prompt_len, requested) >= config.max_seq_len,
        config.max_seq_len > 0 && prompt_len <= config.max_seq_len ==> !config.rejects(prompt_len),
        config.max_seq_len > 0 && prompt_len > config.max_seq_len ==> config.rejects(prompt_len)
            && config.allowed_tokens(prompt_len, requested) == 0,
{
}

/// One byte more than the KV budget would break the limit, at what a tracked byte may cost on the
/// device. A model that fills the limit by itself leaves no budget, and without a limit the budget
/// is all there is.
pub proof fn law_budget_is_the_largest(config: MemoryConfig)
    ensures
        config.gpu_memory_limit_bytes > config.baseline_gpu_bytes ==> config.baseline_gpu_bytes + (
        config.kv_budget() + 1) * KV_GPU_OVERHEAD_FACTOR > config.gpu_memory_limit_bytes,
        0 < config.gpu_memory_limit_bytes <= config.baseline_gpu_bytes ==> config.kv_budget() == 0,
        config.gpu_memory_limit_bytes == 0 ==> config.kv_budget() == u64::MAX,
{
}

/// What holds prefills up, told by bytes. Without a limit, or with the check off, nothing does.
/// More tracked bytes never let a prefill through that fewer hold up. KV caches that would break
/// the limit hold it up, and so does a device beyond its limit, except during the cooldown, when
/// what the device reports makes no difference. Nothing else does.
pub proof fn law_only_memory_holds_prefills_up(
    config: MemoryConfig,
    disabled: bool,
    held: u64,
    more: u64,
    cooldown: u32,
    gpu_used: u64,
)
    requires
        held <= more,
    ensures
        config.gpu_memory_limit_bytes == 0 || disabled ==> !config.over_budget(
            disabled,
            held,
            cooldown,
            gpu_used,
        ),
        config.over_budget(disabled, held, cooldown, gpu_used) ==> config.over_budget(
            disabled,
            more,
            cooldown,
            gpu_used,
        ),
        config.gpu_memory_limit_bytes > 0 && !disabled && config.baseline_gpu_bytes + held
            * KV_GPU_OVERHEAD_FACTOR > config.gpu_memory_limit_bytes ==> config.over_budget(
            disabled,
            held,
            cooldown,
            gpu_used,
        ),
        config.gpu_memory_limit_bytes > 0 && !disabled && cooldown == 0 && gpu_used
            > config.gpu_memory_limit_bytes ==> config.over_budget(
            disabled,
            held,
            cooldown,
            gpu_used,
        ),
        cooldown > 0 ==> config.over_budget(disabled, held, cooldown, gpu_used)
            == config.over_budget(disabled, held, cooldown, 0),
        config.baseline_gpu_bytes + KV_GPU_OVERHEAD_FACTOR <= config.gpu_memory_limit_bytes
            && config.baseline_gpu_bytes + held * KV_GPU_OVERHEAD_FACTOR
            <= config.gpu_memory_limit_bytes && gpu_used <= config.gpu_memory_limit_bytes
            ==> !config.over_budget(disabled, held, cooldown, gpu_used),
{
}

/// The budget for adaptive defaults is the tighter of what is known: the limit and what is free.
pub proof fn law_runtime_budget_is_the_tighter(limit: u64, free: u64)
    ensures
        runtime_budget(limit, free) == limit || runtime_budget(limit, free) == free,
        limit > 0 ==> runtime_budget(limit, free) <= limit,
        free > 0 ==> runtime_budget(limit, free) <= free,
        limit > 0 || free > 0 ==> runtime_budget(limit, free) > 0,
{
}

} // verus!
