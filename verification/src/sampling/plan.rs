//! Which way tokens are chosen.
use super::recent::{self, RecentTokens, MAX_FUSED_REPEAT_LAST_N};
use crate::engine::rows as engine_rows;
use crate::engine::sequence::Sequence;
use crate::floats;
use crate::text;
use candle_core::Tensor;
use vstd::prelude::*;
use vstd::string::*;

verus! {

/// How a greedy batch was sampled.
#[derive(Debug, Clone, Copy, PartialEq, Eq, Structural)]
pub enum BatchGreedyMode {
    CudaBf16NoPenalty,
    CudaBf16Penalty,
    TensorFallback,
}

/// Tokens of a greedy batch.
#[derive(Debug)]
pub struct BatchGreedySample {
    pub tokens: Vec<u32>,
    pub mode: BatchGreedyMode,
    /// The tokens on the device, where the next round can read them.
    pub device_tokens: Option<Tensor>,
}

/// How a non-greedy batch was sampled.
#[derive(Debug, Clone, Copy, PartialEq, Eq, Structural)]
pub enum BatchNonGreedyMode {
    CudaBf16TopKTopP,
}

/// Tokens of a non-greedy batch.
#[derive(Debug)]
pub struct BatchNonGreedySample {
    pub tokens: Vec<u32>,
    pub mode: BatchNonGreedyMode,
    pub active_rows: usize,
}

/// Why a batch cannot be sampled.
#[derive(Debug)]
pub enum SamplingError {
    /// Sequences and liveness flags do not belong together.
    LengthMismatch,
    /// A row that is alive does not sample greedily.
    NonGreedyRow,
    /// The logits are not one row of singles.
    NotARow { rank: usize },
    /// What a row takes from outside is not there.
    DrawMissing,
    Failed(candle_core::Error),
}

/// The sequence always takes the likeliest token.
pub open spec fn greedy(sequence: Sequence) -> bool {
    match sequence.temperature {
        Some(bits) => floats::at_most_zero(bits),
        None => false,
    }
}

/// Whether the sequence always takes the likeliest token: its temperature is at most zero.
pub fn is_greedy(seq: &Sequence) -> (result: bool)
    ensures
        result == greedy(*seq),
{
    match seq.temperature {
        Some(bits) => floats::is_at_most_zero(bits),
        None => false,
    }
}

/// Whether the sequence takes the likeliest token and is not penalised for repetition.
pub fn is_greedy_no_penalty(seq: &Sequence) -> (result: bool)
    ensures
        result == (greedy(*seq) && !recent::penalised(*seq)),
{
    is_greedy(seq) && !recent::has_penalty(seq)
}

/// Every row that is alive is greedy.
pub open spec fn all_greedy(sequences: Seq<&Sequence>, alive: Seq<bool>) -> bool {
    forall|r: int| 0 <= r < sequences.len() && #[trigger] alive[r] ==> greedy(*sequences[r])
}

/// No row that is alive is penalised.
pub open spec fn none_penalised(sequences: Seq<&Sequence>, alive: Seq<bool>) -> bool {
    forall|r: int|
        0 <= r < sequences.len() && #[trigger] alive[r] ==> !recent::penalised(*sequences[r])
}

/// How to sample a greedy batch.
#[derive(Debug)]
pub enum BatchGreedyPlan {
    /// One device kernel.
    CudaPlain,
    /// One device kernel that penalises repetition; the tensor path where it fails.
    CudaPenalty(RecentTokens),
    /// Tensor operations.
    TensorPath,
}

/// Plans how to sample a greedy batch. `cuda_bf16`: the logits are BF16 on a CUDA device.
pub fn plan_batch_greedy(sequences: &[&Sequence], alive: &[bool], cuda_bf16: bool) -> (result:
    Result<BatchGreedyPlan, SamplingError>)
    ensures
        match result {
            Err(SamplingError::LengthMismatch) => sequences@.len() != alive@.len(),
            Err(SamplingError::NonGreedyRow) => sequences@.len() == alive@.len() && !all_greedy(
                sequences@,
                alive@,
            ),
            Err(_) => false,
            Ok(plan) => {
                let width = recent::widest(sequences@, alive@, sequences@.len() as int);
                &&& sequences@.len() == alive@.len()
                &&& all_greedy(sequences@, alive@)
                &&& match plan {
                    BatchGreedyPlan::CudaPlain => cuda_bf16 && none_penalised(sequences@, alive@),
                    BatchGreedyPlan::CudaPenalty(table) => {
                        &&& cuda_bf16 && !none_penalised(sequences@, alive@)
                        &&& 0 < width <= MAX_FUSED_REPEAT_LAST_N
                        &&& table.holds(sequences@, alive@)
                    },
                    BatchGreedyPlan::TensorPath => !cuda_bf16 || (!none_penalised(
                        sequences@,
                        alive@,
                    ) && !(0 < width <= MAX_FUSED_REPEAT_LAST_N)),
                }
            },
        },
{
    if sequences.len() != alive.len() {
        return Err(SamplingError::LengthMismatch);
    }
    let mut plain: bool = true;
    let mut r: usize = 0;
    while r < sequences.len()
        invariant
            r <= sequences@.len(),
            sequences@.len() == alive@.len(),
            forall|j: int| 0 <= j < r && #[trigger] alive@[j] ==> greedy(*sequences@[j]),
            plain == (forall|j: int|
                0 <= j < r && #[trigger] alive@[j] ==> !recent::penalised(*sequences@[j])),
        decreases sequences@.len() - r,
    {
        if alive[r] && !is_greedy(sequences[r]) {
            assert(alive@[r as int]);
            return Err(SamplingError::NonGreedyRow);
        }
        if alive[r] && recent::has_penalty(sequences[r]) {
            assert(alive@[r as int]);
            plain = false;
        }
        r = r + 1;
    }
    if !cuda_bf16 {
        return Ok(BatchGreedyPlan::TensorPath);
    }
    if plain {
        return Ok(BatchGreedyPlan::CudaPlain);
    }
    let width: usize = recent::widest_window(sequences, alive);
    if width > 0 && width <= MAX_FUSED_REPEAT_LAST_N {
        return Ok(BatchGreedyPlan::CudaPenalty(recent::recent_table(sequences, alive)));
    }
    Ok(BatchGreedyPlan::TensorPath)
}

/// One row of a device sampling batch. Temperature and top-p are bits of doubles.
#[derive(Debug, Clone, Copy, PartialEq, Eq, Structural)]
pub struct NonGreedyRow {
    pub temperature: u64,
    pub top_k: u32,
    pub top_p: u64,
    pub seed: u64,
    pub penalty: u32,
}

/// A device sampling batch.
#[derive(Debug)]
pub struct BatchNonGreedyPlan {
    pub rows: Vec<NonGreedyRow>,
    pub recent: RecentTokens,
    pub active_rows: usize,
}

/// Most candidates that the device sampler looks at.
pub const MAX_DEVICE_TOP_K: usize = 64;

/// The temperature, or 1.
pub open spec fn temperature_of(sequence: Sequence) -> u64 {
    match sequence.temperature {
        Some(bits) => bits,
        None => floats::DOUBLE_ONE,
    }
}

/// The top-p limit, or 1.
pub open spec fn top_p_of(sequence: Sequence) -> u64 {
    match sequence.top_p {
        Some(bits) => bits,
        None => floats::DOUBLE_ONE,
    }
}

/// The device sampler can do this row: it is greedy, or has a top-k that is not too large and a
/// top-p above zero and at most one; and its look-back window is not too long.
pub open spec fn device_samples(sequence: Sequence) -> bool {
    let top_p = top_p_of(sequence);
    &&& floats::at_most_zero(temperature_of(sequence)) || {
        &&& sequence.top_k matches Some(k) && 0 < k <= MAX_DEVICE_TOP_K
        &&& floats::inside_unit(top_p) || top_p == floats::DOUBLE_ONE
    }
    &&& recent::penalised(sequence) ==> recent::window_len(sequence) <= MAX_FUSED_REPEAT_LAST_N
}

/// What the device sampler is told about a row. A row that is not alive gets what it needs to be
/// passed over.
pub open spec fn device_row(sequence: Sequence, alive: bool, row: int) -> NonGreedyRow {
    if !alive {
        NonGreedyRow {
            temperature: 0,
            top_k: 0,
            top_p: floats::DOUBLE_ONE,
            seed: 0,
            penalty: floats::SINGLE_ONE,
        }
    } else if floats::at_most_zero(temperature_of(sequence)) {
        NonGreedyRow {
            temperature: 0,
            top_k: 1,
            top_p: floats::DOUBLE_ONE,
            seed: row_seed(sequence, row),
            penalty: sequence.repetition_penalty,
        }
    } else {
        NonGreedyRow {
            temperature: temperature_of(sequence),
            top_k: match sequence.top_k {
                Some(k) => k as u32,
                None => 0,
            },
            top_p: top_p_of(sequence),
            seed: row_seed(sequence, row),
            penalty: sequence.repetition_penalty,
        }
    }
}

/// `hash` after `bytes` were mixed in, one by one.
pub open spec fn mixed(hash: u64, bytes: Seq<u8>) -> u64
    decreases bytes.len(),
{
    if bytes.len() == 0 {
        hash
    } else {
        (mixed(hash, bytes.drop_last()) ^ bytes.last() as u64).wrapping_mul(0x100_0000_01b3)
    }
}

/// The seed of one row: the sequence's own, mixed with its name, its length and its place.
pub open spec fn row_seed(sequence: Sequence, row: int) -> u64 {
    mixed(
        sequence.sampling_seed ^ 0x9e37_79b9_7f4a_7c15u64,
        vstd::utf8::encode_utf8(sequence.request_id@),
    ) ^ (sequence.tokens@.len() as u64).wrapping_mul(0xbf58_476d_1ce4_e5b9) ^ (
    sequence.generated() as u64).wrapping_mul(0x94d0_49bb_1331_11eb) ^ (row as u64).wrapping_mul(
        0xd6e8_feb8_6659_fd93,
    )
}

/// The seed of one row of a batch.
pub fn derive_row_seed(seq: &Sequence, row: usize) -> (result: u64)
    requires
        seq.wf(),
    ensures
        result == row_seed(*seq, row as int),
{
    let bytes = seq.request_id.as_str().as_bytes();
    let first: u64 = seq.sampling_seed ^ 0x9e37_79b9_7f4a_7c15u64;
    let mut hash: u64 = first;
    let mut i: usize = 0;
    assert(bytes@.take(0) =~= Seq::empty());
    while i < bytes.len()
        invariant
            i <= bytes@.len(),
            hash == mixed(first, bytes@.take(i as int)),
        decreases bytes@.len() - i,
    {
        assert(bytes@.take(i + 1).drop_last() =~= bytes@.take(i as int));
        hash = (hash ^ bytes[i] as u64).wrapping_mul(0x100_0000_01b3);
        i = i + 1;
    }
    assert(bytes@.take(i as int) =~= bytes@);
    hash ^ (seq.tokens.len() as u64).wrapping_mul(0xbf58_476d_1ce4_e5b9) ^ (
    seq.num_generated() as u64).wrapping_mul(0x94d0_49bb_1331_11eb) ^ (row as u64).wrapping_mul(
        0xd6e8_feb8_6659_fd93,
    )
}

/// The device sampler can do every row that is alive.
pub open spec fn device_samples_all(sequences: Seq<&Sequence>, alive: Seq<bool>) -> bool {
    forall|r: int| 0 <= r < sequences.len() && #[trigger] alive[r] ==> device_samples(*sequences[r])
}

fn can_device_sample(seq: &Sequence) -> (result: bool)
    ensures
        result == device_samples(*seq),
{
    let temperature: u64 = match seq.temperature {
        Some(bits) => bits,
        None => floats::DOUBLE_ONE,
    };
    if !floats::is_at_most_zero(temperature) {
        match seq.top_k {
            None => {
                return false;
            },
            Some(k) => {
                if k == 0 || k > MAX_DEVICE_TOP_K {
                    return false;
                }
            },
        }
        let top_p: u64 = match seq.top_p {
            Some(bits) => bits,
            None => floats::DOUBLE_ONE,
        };
        if !floats::is_inside_unit(top_p) && top_p != floats::DOUBLE_ONE {
            return false;
        }
    }
    !recent::has_penalty(seq) || recent::recent_len(seq) <= MAX_FUSED_REPEAT_LAST_N
}

fn device_row_of(seq: &Sequence, alive: bool, row: usize) -> (result: NonGreedyRow)
    requires
        seq.wf(),
    ensures
        result == device_row(*seq, alive, row as int),
{
    if !alive {
        return NonGreedyRow {
            temperature: 0,
            top_k: 0,
            top_p: floats::DOUBLE_ONE,
            seed: 0,
            penalty: floats::SINGLE_ONE,
        };
    }
    let temperature: u64 = match seq.temperature {
        Some(bits) => bits,
        None => floats::DOUBLE_ONE,
    };
    let seed: u64 = derive_row_seed(seq, row);
    let penalty: u32 = seq.repetition_penalty;
    if floats::is_at_most_zero(temperature) {
        return NonGreedyRow {
            temperature: 0,
            top_k: 1,
            top_p: floats::DOUBLE_ONE,
            seed,
            penalty,
        };
    }
    let top_k: u32 = match seq.top_k {
        Some(k) => k as u32,
        None => 0,
    };
    let top_p: u64 = match seq.top_p {
        Some(bits) => bits,
        None => floats::DOUBLE_ONE,
    };
    NonGreedyRow { temperature, top_k, top_p, seed, penalty }
}

/// Plans how to sample a batch on the device, where the device can do all of it. `usable`: the
/// logits are BF16 on a CUDA device, and device sampling is switched on.
pub fn plan_batch_non_greedy(sequences: &[&Sequence], alive: &[bool], usable: bool) -> (result:
    Result<Option<BatchNonGreedyPlan>, SamplingError>)
    requires
        forall|r: int| 0 <= r < sequences@.len() ==> (#[trigger] sequences@[r]).wf(),
    ensures
        match result {
            Err(SamplingError::LengthMismatch) => sequences@.len() != alive@.len(),
            Err(_) => false,
            Ok(None) => {
                &&& sequences@.len() == alive@.len()
                &&& !usable || engine_rows::none_alive(alive@) || !device_samples_all(
                    sequences@,
                    alive@,
                )
            },
            Ok(Some(plan)) => {
                &&& sequences@.len() == alive@.len()
                &&& usable && !engine_rows::none_alive(alive@) && device_samples_all(
                    sequences@,
                    alive@,
                )
                &&& plan.active_rows == engine_rows::alive_count(alive@)
                &&& plan.rows@ == Seq::new(
                    sequences@.len(),
                    |r: int| device_row(*sequences@[r], alive@[r], r),
                )
                &&& plan.recent.holds(sequences@, alive@)
            },
        },
{
    if sequences.len() != alive.len() {
        return Err(SamplingError::LengthMismatch);
    }
    if !usable {
        return Ok(None);
    }
    let flags = vstd::slice::slice_to_vec(alive);
    let active_rows: usize = engine_rows::active_rows(&flags);
    proof {
        engine_rows::lemma_alive_count(alive@);
    }
    if active_rows == 0 {
        return Ok(None);
    }
    let mut rows: Vec<NonGreedyRow> = Vec::new();
    let mut r: usize = 0;
    while r < sequences.len()
        invariant
            r <= sequences@.len(),
            sequences@.len() == alive@.len(),
            forall|j: int| 0 <= j < sequences@.len() ==> (#[trigger] sequences@[j]).wf(),
            forall|j: int| 0 <= j < r && #[trigger] alive@[j] ==> device_samples(*sequences@[j]),
            rows@ =~= Seq::new(r as nat, |j: int| device_row(*sequences@[j], alive@[j], j)),
        decreases sequences@.len() - r,
    {
        if alive[r] && !can_device_sample(sequences[r]) {
            assert(alive@[r as int]);
            return Ok(None);
        }
        assert(sequences@[r as int].wf());
        rows.push(device_row_of(sequences[r], alive[r], r));
        r = r + 1;
    }
    let recent = recent::recent_table(sequences, alive);
    Ok(Some(BatchNonGreedyPlan { rows, recent, active_rows }))
}

/// Settings of row sampling.
pub struct RowSamplingEnv<'a> {
    pub force_gpu_topk: Option<&'a str>,
    pub topp_fallback_topk: Option<&'a str>,
    pub topk_sample_on_cpu: Option<&'a str>,
}

/// How to choose the token of one row.
#[derive(Debug, Clone, Copy, PartialEq, Eq, Structural)]
pub enum RowPlan {
    /// The likeliest token.
    Greedy,
    /// The host-side sampler.
    Processor,
    /// The `k` likeliest tokens, then one of them at random; `masked`: only as many of them as
    /// reach top-p.
    TopK { k: usize, masked: bool, on_cpu: bool },
    /// One token at random.
    Gumbel,
}

/// Vocabularies above this size are not searched for their likeliest tokens unless asked to.
pub const LARGE_VOCABULARY: usize = 65536;

/// The variable says 1.
pub open spec fn is_one(value: Option<&str>) -> bool {
    match value {
        Some(text) => text@ == "1"@,
        None => false,
    }
}

fn says_one(value: Option<&str>) -> (result: bool)
    ensures
        result == is_one(value),
{
    match value {
        Some(text) => text::same_text(text, "1"),
        None => false,
    }
}

/// Candidates where only top-p was asked for.
pub open spec fn fallback_top_k(value: Option<&str>) -> int {
    match value {
        Some(text) => match text::parsed_upto(text@, usize::MAX as int) {
            Some(number) => number,
            None => 64,
        },
        None => 64,
    }
}

/// Candidates of a row with a vocabulary of `vocab` tokens; `None` where the host-side sampler
/// is to do it.
pub open spec fn candidates(
    sequence: Sequence,
    vocab: int,
    env: RowSamplingEnv<'_>,
) -> Option<int> {
    let asked = match sequence.top_k {
        Some(k) => k as int,
        None => 0,
    };
    let nucleus = floats::inside_unit(top_p_of(sequence));
    if asked == 0 && nucleus && vocab > LARGE_VOCABULARY && !is_one(env.force_gpu_topk) {
        None
    } else {
        let wanted = if asked == 0 && nucleus {
            fallback_top_k(env.topp_fallback_topk)
        } else {
            asked
        };
        let most = if wanted <= MAX_DEVICE_TOP_K {
            wanted
        } else {
            MAX_DEVICE_TOP_K as int
        };
        Some(
            if most <= vocab {
                most
            } else {
                vocab
            },
        )
    }
}

/// How the token of one row is chosen, from a vocabulary of `vocab` tokens.
pub open spec fn row_plan(
    sequence: Sequence,
    on_cuda: bool,
    vocab: int,
    env: RowSamplingEnv<'_>,
) -> RowPlan {
    let top_p = top_p_of(sequence);
    let nucleus = floats::inside_unit(top_p);
    let open = floats::at_most_zero(top_p) || floats::at_least_one(top_p);
    if greedy(sequence) {
        RowPlan::Greedy
    } else if on_cuda && candidates(sequence, vocab, env) is None {
        RowPlan::Processor
    } else if on_cuda && 0 < candidates(sequence, vocab, env)->Some_0 < vocab {
        RowPlan::TopK {
            k: candidates(sequence, vocab, env)->Some_0 as usize,
            masked: nucleus,
            on_cpu: is_one(env.topk_sample_on_cpu),
        }
    } else if open {
        RowPlan::Gumbel
    } else {
        RowPlan::Processor
    }
}

/// Plans how to choose the token of one row.
pub fn plan_row(seq: &Sequence, on_cuda: bool, vocab: usize, env: &RowSamplingEnv<'_>) -> (result:
    RowPlan)
    ensures
        result == row_plan(*seq, on_cuda, vocab as int, *env),
{
    if is_greedy(seq) {
        return RowPlan::Greedy;
    }
    let top_p: u64 = match seq.top_p {
        Some(bits) => bits,
        None => floats::DOUBLE_ONE,
    };
    let nucleus = floats::is_inside_unit(top_p);
    if on_cuda {
        let mut top_k: usize = match seq.top_k {
            Some(k) => k,
            None => 0,
        };
        if top_k == 0 && nucleus {
            if vocab > LARGE_VOCABULARY && !says_one(env.force_gpu_topk) {
                return RowPlan::Processor;
            }
            top_k = match env.topp_fallback_topk {
                Some(text) => match text::parse_usize(text) {
                    Some(number) => number,
                    None => 64,
                },
                None => 64,
            };
        }
        if top_k > MAX_DEVICE_TOP_K {
            top_k = MAX_DEVICE_TOP_K;
        }
        if top_k > vocab {
            top_k = vocab;
        }
        if top_k > 0 && top_k < vocab {
            return RowPlan::TopK {
                k: top_k,
                masked: nucleus,
                on_cpu: says_one(env.topk_sample_on_cpu),
            };
        }
    }
    if floats::is_at_most_zero(top_p) || floats::is_at_least_one(top_p) {
        RowPlan::Gumbel
    } else {
        RowPlan::Processor
    }
}

/// Multiplying by an odd number can be undone, so it keeps different numbers different.
proof fn lemma_odd_factor(a: u64, b: u64, odd: u64, inverse: int, times: int)
    requires
        odd * inverse == 1 + times * 0x1_0000_0000_0000_0000,
        a.wrapping_mul(odd) == b.wrapping_mul(odd),
    ensures
        a == b,
{
    let range = 0x1_0000_0000_0000_0000int;
    let x = a * odd;
    let y = b * odd;
    assert(x >= 0 && y >= 0) by (nonlinear_arith)
        requires
            x == a * odd,
            y == b * odd,
    ;
    assert(x % range == y % range);
    let p = x / range;
    let q = y / range;
    assert(x == p * range + x % range && y == q * range + y % range) by (nonlinear_arith)
        requires
            range > 0,
            p == x / range,
            q == y / range,
    ;
    let whole = (p - q) * inverse - times * (a - b);
    assert(a - b == whole * range) by (nonlinear_arith)
        requires
            x - y == (p - q) * range,
            x == a * odd,
            y == b * odd,
            odd * inverse == 1 + times * range,
            whole == (p - q) * inverse - times * (a - b),
    ;
    assert(whole == 0) by (nonlinear_arith)
        requires
            a - b == whole * range,
            -range < a - b < range,
            range > 0,
    ;
}

proof fn lemma_mixing_keeps_apart(left: u64, right: u64, bytes: Seq<u8>)
    requires
        left != right,
    ensures
        mixed(left, bytes) != mixed(right, bytes),
    decreases bytes.len(),
{
    if bytes.len() > 0 {
        lemma_mixing_keeps_apart(left, right, bytes.drop_last());
        let a = mixed(left, bytes.drop_last());
        let b = mixed(right, bytes.drop_last());
        let byte = bytes.last() as u64;
        assert((a ^ byte) != (b ^ byte)) by (bit_vector)
            requires
                a != b,
        ;
        if (a ^ byte).wrapping_mul(0x100_0000_01b3) == (b ^ byte).wrapping_mul(0x100_0000_01b3) {
            lemma_odd_factor(
                a ^ byte,
                b ^ byte,
                0x100_0000_01b3,
                0xce96_5057_aff6_957b,
                887285111055,
            );
        }
    }
}

/// Rows of a batch draw from seeds of their own: the same sequence in another row has another seed,
/// and so has a sequence that differs in nothing but its own seed.
pub proof fn law_row_seeds_differ(sequence: Sequence, other: Sequence, row: u64, place: u64)
    requires
        other == (Sequence { sampling_seed: other.sampling_seed, ..sequence }),
    ensures
        row != place ==> row_seed(sequence, row as int) != row_seed(sequence, place as int),
        other.sampling_seed != sequence.sampling_seed ==> row_seed(other, row as int) != row_seed(
            sequence,
            row as int,
        ),
{
    let name = vstd::utf8::encode_utf8(sequence.request_id@);
    let first = sequence.sampling_seed;
    let second = other.sampling_seed;
    let odd = 0xd6e8_feb8_6659_fd93u64;
    let length = (sequence.tokens@.len() as u64).wrapping_mul(0xbf58_476d_1ce4_e5b9);
    let generated = (sequence.generated() as u64).wrapping_mul(0x94d0_49bb_1331_11eb);
    let hash = mixed(first ^ 0x9e37_79b9_7f4a_7c15u64, name);
    let a = row.wrapping_mul(odd);
    let b = place.wrapping_mul(odd);
    if row != place {
        if a == b {
            lemma_odd_factor(row, place, odd, 0xcfee_444d_8b59_a89b, 12578109465933073204);
        }
        assert((hash ^ length ^ generated ^ a) != (hash ^ length ^ generated ^ b)) by (bit_vector)
            requires
                a != b,
        ;
    }
    if second != first {
        assert((second ^ 0x9e37_79b9_7f4a_7c15u64) != (first ^ 0x9e37_79b9_7f4a_7c15u64))
            by (bit_vector)
            requires
                second != first,
        ;
        let mix = mixed(second ^ 0x9e37_79b9_7f4a_7c15u64, name);
        lemma_mixing_keeps_apart(
            second ^ 0x9e37_79b9_7f4a_7c15u64,
            first ^ 0x9e37_79b9_7f4a_7c15u64,
            name,
        );
        assert((mix ^ length ^ generated ^ a) != (hash ^ length ^ generated ^ a)) by (bit_vector)
            requires
                mix != hash,
        ;
    }
}

} // verus!
