//! Chooses the token of one row, with what chance and the device contribute.
use super::buffers::{BufferError, SamplingBuffers};
use super::plan::{self, RowPlan, RowSamplingEnv, SamplingError};
use super::rows::{self, TopKChoice};
use crate::engine::sequence::Sequence;
use crate::floats;
use crate::tensor_math;
use crate::tensors;
use candle_core::Tensor;
use candle_transformers::generation::LogitsProcessor;
use vstd::prelude::*;

verus! {

/// The host-side sampler of a sequence.
#[verifier::external_type_specification]
#[verifier::external_body]
pub struct ExLogitsProcessor(candle_transformers::generation::LogitsProcessor);

/// What comes from outside for one row.
#[derive(Debug)]
pub enum RowDraw {
    Nothing,
    /// Uniform noise in the shape of the row.
    Noise(Tensor),
    /// The likeliest tokens, likeliest first, and uniform noise for them unless the host-side
    /// sampler chooses.
    Candidates { indices: Tensor, noise: Option<Tensor> },
}

/// This sampler has drawn this index of a row of logits.
pub uninterp spec fn index_drawn(processor: LogitsProcessor, row: Tensor, index: u32) -> bool;

/// A copy of a tensor in host memory.
pub uninterp spec fn tensor_on_host(tensor: Tensor) -> Tensor;

/// `LogitsProcessor::sample` draws an index of a row of logits. Which one is left to chance. It can
/// fail, by the elements of the row or on a device; when it does is left unsaid. Left out are an
/// empty row, one of more elements than can be allocated, and one of one element, which a view may
/// have without a step, unless it is a copy.
#[verifier::external_body]
pub(crate) fn draw(processor: &mut LogitsProcessor, row: &Tensor) -> (result: Result<
    u32,
    candle_core::Error,
>)
    requires
        tensors::tensor_dims(*row).len() == 1,
        tensors::tensor_dims(*row)[0] > 0,
        tensor_math::steps(*row),
        tensors::sized(*row),
    ensures
        result matches Ok(token) ==> token < tensors::tensor_dims(*row)[0] && index_drawn(
            *old(processor),
            *row,
            token,
        ),
{
    processor.sample(row)
}

/// `Tensor::to_device` to the host; shape and element type stay. A tensor that is there already is
/// handed back as it is. Copying from a device can fail.
#[verifier::external_body]
pub(crate) fn to_host(tensor: &Tensor) -> (result: tensors::TensorResult)
    ensures
        match result {
            Ok(out) => {
                &&& out == tensor_on_host(*tensor)
                &&& tensors::tensor_dims(out) == tensors::tensor_dims(*tensor)
                &&& tensor_math::tensor_dtype(out) == tensor_math::tensor_dtype(*tensor)
                &&& tensor_math::device_is_cpu(tensor_math::tensor_device(out))
            },
            Err(_) => !tensor_math::device_is_cpu(tensor_math::tensor_device(*tensor)),
        },
{
    tensor.to_device(&candle_core::Device::Cpu)
}

/// The plan has from outside what it takes for a row.
pub open spec fn draw_fits(plan: RowPlan, row: Tensor, drawn: RowDraw) -> bool {
    match plan {
        RowPlan::Greedy => true,
        RowPlan::Processor => true,
        RowPlan::Gumbel => match drawn {
            RowDraw::Noise(noise) => rows::noise_suits(row, noise),
            _ => false,
        },
        RowPlan::TopK { k, masked, on_cpu } => match drawn {
            RowDraw::Candidates { indices, noise } => {
                &&& k > 0
                &&& tensors::tensor_dims(indices) == seq![k]
                &&& on_cpu || match noise {
                    Some(noise) => rows::noise_suits(row, noise),
                    None => false,
                }
            },
            _ => false,
        },
    }
}

/// How one of the `k` likeliest tokens of a sequence is chosen.
pub open spec fn top_k_choice(sequence: Sequence, k: usize, masked: bool) -> TopKChoice {
    TopKChoice {
        k,
        temperature: plan::temperature_of(sequence),
        top_p: if masked {
            Some(plan::top_p_of(sequence))
        } else {
            None
        },
    }
}

/// What a device chooses for a row: the index tensor of the token.
pub open spec fn device_choice(
    sequence: Sequence,
    row: Tensor,
    plan: RowPlan,
    drawn: RowDraw,
    held: SamplingBuffers,
) -> Option<Tensor> {
    match plan {
        RowPlan::Greedy => Some(rows::largest_of(row)),
        RowPlan::Gumbel => Some(
            rows::gumbel_choice(row, plan::temperature_of(sequence), drawn->Noise_0),
        ),
        RowPlan::TopK { k, masked, on_cpu } => if on_cpu {
            None
        } else {
            let choice = top_k_choice(sequence, k, masked);
            Some(rows::top_k_token(row, drawn->indices, choice, drawn->noise->Some_0, held))
        },
        RowPlan::Processor => None,
    }
}

/// Applies the repetition penalty to a row, and plans how its token is chosen.
pub fn begin_row(row: Tensor, seq: &Sequence, env: &RowSamplingEnv<'_>) -> (result: Result<
    (Tensor, RowPlan),
    SamplingError,
>)
    ensures
        match result {
            Ok((out, plan)) => {
                &&& tensors::tensor_dims(row).len() == 1
                &&& tensor_math::dtype_is_single(tensor_math::tensor_dtype(row))
                &&& out == rows::weighed(row, *seq)
                &&& tensors::tensor_dims(out) == tensors::tensor_dims(row)
                &&& tensor_math::tensor_dtype(out) == tensor_math::tensor_dtype(row)
                &&& tensor_math::tensor_device(out) == tensor_math::tensor_device(row)
                &&& plan == plan::row_plan(
                    *seq,
                    tensors::device_is_cuda(tensor_math::tensor_device(out)),
                    tensors::tensor_dims(row)[0] as int,
                    *env,
                )
            },
            Err(SamplingError::NotARow { rank }) => rank == tensors::tensor_dims(row).len() && !(
            tensors::tensor_dims(row).len() == 1 && tensor_math::dtype_is_single(
                tensor_math::tensor_dtype(row),
            )),
            Err(SamplingError::Failed(_)) => {
                &&& super::recent::penalised(*seq)
                &&& super::recent::window(*seq).len() > 0
                &&& !rows::penalises_on_cpu(row, super::recent::window(*seq))
            },
            Err(_) => false,
        },
{
    let out = rows::weigh_row(row, seq)?;
    let vocab: usize = tensors::dims(&out)[0];
    let on_cuda = tensor_math::device_of(&out).is_cuda();
    let plan = plan::plan_row(seq, on_cuda, vocab, env);
    Ok((out, plan))
}

/// The token at a drawn place, or the first one where there is none.
pub open spec fn placed(tokens: Seq<u32>, place: u32) -> u32 {
    if place < tokens.len() {
        tokens[place as int]
    } else {
        tokens[0]
    }
}

/// The token at a drawn place, or the first one where there is none.
pub fn token_at_place(tokens: &Vec<u32>, place: u32) -> (result: u32)
    requires
        tokens@.len() > 0,
    ensures
        result == placed(tokens@, place),
{
    let i: usize = place as usize;
    if i < tokens.len() {
        tokens[i]
    } else {
        tokens[0]
    }
}

/// The host-side sampler draws `token` for a row, where the plan leaves that to it: among the
/// candidates, or in the whole row. A single element is copied first.
pub open spec fn host_draws(
    row: Tensor,
    plan: RowPlan,
    drawn: RowDraw,
    processor: LogitsProcessor,
    token: u32,
) -> bool {
    match plan {
        RowPlan::TopK { .. } => {
            let indices = drawn->indices;
            let candidates = tensor_math::stepped(
                tensor_on_host(tensor_math::tensor_gathered(row, indices)),
            );
            exists|tokens: Seq<u32>, place: u32|
                {
                    &&& #[trigger] tensor_math::numbers_read(indices, tokens)
                    &&& #[trigger] index_drawn(processor, candidates, place)
                    &&& token == placed(tokens, place)
                }
        },
        _ => {
            &&& index_drawn(processor, tensor_math::stepped(row), token)
            &&& token < tensors::tensor_dims(row)[0]
        },
    }
}

/// One U32 number in host memory, without a dimension.
pub open spec fn reads_on_cpu(choice: Tensor) -> bool {
    &&& tensors::tensor_dims(choice).len() == 0
    &&& tensor_math::dtype_is_number(tensor_math::tensor_dtype(choice))
    &&& tensor_math::on_cpu(choice)
}

/// The CPU chooses the token of a row as planned, with what was drawn for it. It does not where
/// the host-side sampler draws.
pub open spec fn chosen_on_cpu(
    sequence: Sequence,
    row: Tensor,
    plan: RowPlan,
    drawn: RowDraw,
    held: SamplingBuffers,
) -> bool {
    match plan {
        RowPlan::Greedy => tensor_math::argmax_on_cpu(row),
        RowPlan::Gumbel => match drawn {
            RowDraw::Noise(noise) => rows::gumbel_on_cpu(
                row,
                plan::temperature_of(sequence),
                noise,
            ),
            _ => false,
        },
        RowPlan::TopK { k, masked, on_cpu } => match drawn {
            RowDraw::Candidates { indices, noise: Some(noise) } => !on_cpu && rows::top_k_on_cpu(
                row,
                indices,
                top_k_choice(sequence, k, masked),
                noise,
                held,
            ),
            _ => false,
        },
        RowPlan::Processor => false,
    }
}

/// The buffers have what the plan took to choose a token.
pub open spec fn plan_kept(
    sequence: Sequence,
    row: Tensor,
    plan: RowPlan,
    drawn: RowDraw,
    before: SamplingBuffers,
    after: SamplingBuffers,
) -> bool {
    match plan {
        RowPlan::TopK { k, masked, on_cpu: false } => rows::choice_kept(
            row,
            drawn->indices,
            top_k_choice(sequence, k, masked),
            before,
            after,
        ),
        _ => after == before,
    }
}

/// The buffers have some of what the plan takes to choose a token.
pub open spec fn plan_kept_partly(
    sequence: Sequence,
    row: Tensor,
    plan: RowPlan,
    drawn: RowDraw,
    before: SamplingBuffers,
    after: SamplingBuffers,
) -> bool {
    match plan {
        RowPlan::TopK { k, masked, on_cpu: false } => rows::choice_kept_partly(
            row,
            drawn->indices,
            top_k_choice(sequence, k, masked),
            before,
            after,
        ),
        _ => after == before,
    }
}

fn read(choice: &Tensor) -> (result: Result<u32, SamplingError>)
    ensures
        match result {
            Ok(token) => tensor_math::number_read(*choice, token),
            Err(error) => error is Failed && !reads_on_cpu(*choice),
        },
{
    match tensor_math::read_token(choice) {
        Ok(token) => Ok(token),
        Err(error) => Err(SamplingError::Failed(error)),
    }
}

/// Chooses the token of a row on its device.
pub fn choose_on_device(
    seq: &Sequence,
    row: &Tensor,
    plan: RowPlan,
    drawn: &RowDraw,
    buffers: &mut SamplingBuffers,
) -> (result: Result<Option<Tensor>, SamplingError>)
    requires
        plan matches RowPlan::TopK { k, .. } ==> k <= plan::MAX_DEVICE_TOP_K,
    ensures
        match result {
            Ok(choice) => {
                &&& draw_fits(plan, *row, *drawn)
                &&& choice == device_choice(*seq, *row, plan, *drawn, *final(buffers))
                &&& plan_kept(*seq, *row, plan, *drawn, *old(buffers), *final(buffers))
                &&& chosen_on_cpu(*seq, *row, plan, *drawn, *old(buffers)) && tensors::tensor_dims(
                    *row,
                ).len() == 1 ==> choice is Some && reads_on_cpu(choice->Some_0)
            },
            Err(SamplingError::DrawMissing) => {
                &&& !draw_fits(plan, *row, *drawn)
                &&& *final(buffers) == *old(buffers)
            },
            Err(SamplingError::Failed(_)) => {
                &&& draw_fits(plan, *row, *drawn)
                &&& !chosen_on_cpu(*seq, *row, plan, *drawn, *old(buffers))
                &&& plan_kept_partly(*seq, *row, plan, *drawn, *old(buffers), *final(buffers))
            },
            Err(_) => false,
        },
{
    let temperature: u64 = match seq.temperature {
        Some(bits) => bits,
        None => floats::DOUBLE_ONE,
    };
    match plan {
        RowPlan::Greedy => match rows::likeliest(row) {
            Ok(choice) => Ok(Some(choice)),
            Err(error) => Err(SamplingError::Failed(error)),
        },
        RowPlan::Processor => Ok(None),
        RowPlan::Gumbel => match drawn {
            RowDraw::Noise(noise) => {
                if !rows::is_noise_for(row, noise) {
                    return Err(SamplingError::DrawMissing);
                }
                match rows::sample_gumbel_max_idx(row, temperature, noise) {
                    Ok(choice) => Ok(Some(choice)),
                    Err(error) => Err(SamplingError::Failed(error)),
                }
            },
            _ => Err(SamplingError::DrawMissing),
        },
        RowPlan::TopK { k, masked, on_cpu } => match drawn {
            RowDraw::Candidates { indices, noise } => {
                let dims = tensors::dims(indices);
                if k == 0 || dims.len() != 1 || dims[0] != k {
                    assert(tensors::tensor_dims(*indices) != seq![k] || k == 0);
                    return Err(SamplingError::DrawMissing);
                }
                assert(tensors::tensor_dims(*indices) =~= seq![k]);
                if on_cpu {
                    return Ok(None);
                }
                match noise {
                    None => Err(SamplingError::DrawMissing),
                    Some(noise) => {
                        if !rows::is_noise_for(row, noise) {
                            return Err(SamplingError::DrawMissing);
                        }
                        let top_p = if masked {
                            match seq.top_p {
                                Some(bits) => Some(bits),
                                None => Some(floats::DOUBLE_ONE),
                            }
                        } else {
                            None
                        };
                        proof {
                            lemma_few_allocate(k);
                        }
                        let choice = TopKChoice { k, temperature, top_p };
                        match rows::choose_top_k(buffers, row, indices, &choice, noise) {
                            Ok(token) => Ok(Some(token)),
                            Err(BufferError::Failed(error)) => Err(SamplingError::Failed(error)),
                            Err(BufferError::TooFewCandidates { .. }) => {
                                assert(false);
                                Err(SamplingError::DrawMissing)
                            },
                        }
                    },
                }
            },
            _ => Err(SamplingError::DrawMissing),
        },
    }
}

proof fn lemma_few_allocate(k: usize)
    requires
        k <= plan::MAX_DEVICE_TOP_K,
    ensures
        tensors::shape_allocates(seq![k]),
        tensors::shape_allocates(seq![k, k]),
{
    tensors::lemma_countable(k, k);
}

/// Chooses the token of a row after [`begin_row`], with what the plan takes from outside.
pub fn sample_from_f32_logits(
    seq: &Sequence,
    row: &Tensor,
    plan: RowPlan,
    drawn: &RowDraw,
    buffers: &mut SamplingBuffers,
    processor: &mut LogitsProcessor,
) -> (result: Result<u32, SamplingError>)
    requires
        tensors::tensor_dims(*row).len() == 1,
        tensors::tensor_dims(*row)[0] > 0,
        plan matches RowPlan::TopK { k, .. } ==> k <= plan::MAX_DEVICE_TOP_K,
    ensures
        match result {
            Ok(token) => {
                &&& draw_fits(plan, *row, *drawn)
                &&& plan_kept(*seq, *row, plan, *drawn, *old(buffers), *final(buffers))
                &&& match device_choice(*seq, *row, plan, *drawn, *final(buffers)) {
                    Some(choice) => tensor_math::number_read(choice, token) && *final(processor)
                        == *old(processor),
                    None => host_draws(*row, plan, *drawn, *old(processor), token),
                }
            },
            Err(SamplingError::DrawMissing) => {
                &&& !draw_fits(plan, *row, *drawn)
                &&& *final(buffers) == *old(buffers)
                &&& *final(processor) == *old(processor)
            },
            Err(SamplingError::Failed(_)) => {
                &&& draw_fits(plan, *row, *drawn)
                &&& !chosen_on_cpu(*seq, *row, plan, *drawn, *old(buffers))
                &&& plan_kept_partly(*seq, *row, plan, *drawn, *old(buffers), *final(buffers))
            },
            Err(_) => false,
        },
{
    match choose_on_device(seq, row, plan, drawn, buffers)? {
        Some(choice) => read(&choice),
        None => match drawn {
            RowDraw::Candidates { indices, .. } => match plan {
                RowPlan::TopK { k, .. } => {
                    proof {
                        lemma_few_allocate(k);
                    }
                    match draw_candidate(row, indices, processor) {
                        Ok(token) => Ok(token),
                        Err(error) => Err(SamplingError::Failed(error)),
                    }
                },
                _ => draw_token(processor, row),
            },
            _ => draw_token(processor, row),
        },
    }
}

/// Draws an index of a row of logits; a single one is copied first.
fn draw_index(processor: &mut LogitsProcessor, row: &Tensor) -> (result: Result<
    u32,
    candle_core::Error,
>)
    requires
        tensors::tensor_dims(*row).len() == 1,
        tensors::tensor_dims(*row)[0] > 0,
        tensors::sized(*row),
    ensures
        result matches Ok(token) ==> token < tensors::tensor_dims(*row)[0] && index_drawn(
            *old(processor),
            tensor_math::stepped(*row),
            token,
        ),
{
    proof {
        tensors::lemma_positive_dims(tensors::tensor_dims(*row));
    }
    let ready = tensor_math::with_steps(row)?;
    draw(processor, &ready)
}

fn draw_token(processor: &mut LogitsProcessor, row: &Tensor) -> (result: Result<
    u32,
    SamplingError,
>)
    requires
        tensors::tensor_dims(*row).len() == 1,
        tensors::tensor_dims(*row)[0] > 0,
    ensures
        match result {
            Ok(token) => token < tensors::tensor_dims(*row)[0] && index_drawn(
                *old(processor),
                tensor_math::stepped(*row),
                token,
            ),
            Err(error) => error is Failed,
        },
{
    if let Err(error) = tensors::demand_size(row) {
        return Err(SamplingError::Failed(error));
    }
    match draw_index(processor, row) {
        Ok(token) => Ok(token),
        Err(error) => Err(SamplingError::Failed(error)),
    }
}

fn draw_candidate(row: &Tensor, indices: &Tensor, processor: &mut LogitsProcessor) -> (result:
    Result<u32, candle_core::Error>)
    requires
        tensors::tensor_dims(*indices).len() == 1,
        tensors::tensor_dims(*indices)[0] > 0,
        tensors::sized(*indices),
    ensures
        result matches Ok(token) ==> exists|tokens: Seq<u32>, place: u32|
            {
                &&& #[trigger] tensor_math::numbers_read(*indices, tokens)
                &&& #[trigger] index_drawn(
                    *old(processor),
                    tensor_math::stepped(
                        tensor_on_host(tensor_math::tensor_gathered(*row, *indices)),
                    ),
                    place,
                )
                &&& token == placed(tokens, place)
            },
{
    tensors::demand_elements(row)?;
    tensors::demand_size(row)?;
    proof {
        tensors::lemma_positive_dims(tensors::tensor_dims(*indices));
    }
    let candidates = tensor_math::gather_last(row, indices)?;
    let tokens = tensor_math::read_tokens(indices)?;
    let on_host = to_host(&candidates)?;
    let place: u32 = draw_index(processor, &on_host)?;
    Ok(token_at_place(&tokens, place))
}

} // verus!
