//! Tensor work of sampling: penalties, random choices and the likeliest tokens.
use super::buffers::{self, BufferError, SamplingBuffers};
use super::plan::{self, BatchGreedyMode, BatchGreedySample, SamplingError};
use super::recent;
use crate::engine::sequence::Sequence;
use crate::floats;
use crate::tensor_math;
use crate::tensors::{self, TensorResult};
use candle_core::{DType, Device, Tensor};
use vstd::prelude::*;

verus! {

/// The tokens that a penalty on this context changes.
pub open spec fn penalty_places(row: Tensor, context: Seq<u32>) -> Tensor {
    tensor_math::tensor_of_ids(
        recent::distinct_sorted(context),
        tensor_math::tensor_device(row),
    )
}

/// What it makes of their logits: positive ones are divided by the penalty, others multiplied.
pub open spec fn penalty_logits(row: Tensor, penalty: u32, context: Seq<u32>) -> Tensor {
    let factor = tensor_math::tensor_of_single(penalty, tensor_math::tensor_device(row));
    let inverse = tensor_math::tensor_as_single(
        tensor_math::tensor_reciprocal(tensor_math::tensor_as_double(factor)),
    );
    let selected = tensor_math::tensor_gathered(row, penalty_places(row, context));
    tensor_math::tensor_where(
        tensor_math::tensor_ge(selected, tensor_math::tensor_zeros_like(selected)),
        tensor_math::tensor_product(selected, inverse),
        tensor_math::tensor_product(selected, factor),
    )
}

/// Logits after a penalty on the tokens of a context, in `view`, which is all of them or a row.
pub open spec fn penalised_in(logits: Tensor, view: Tensor, penalty: u32, context: Seq<u32>) -> Tensor {
    if context.len() == 0 {
        logits
    } else {
        tensor_math::tensor_scattered(
            logits,
            view,
            penalty_places(view, context),
            penalty_logits(view, penalty, context),
        )
    }
}

/// A row of logits after a penalty on the tokens of a context.
pub open spec fn penalised_logits(logits: Tensor, penalty: u32, context: Seq<u32>) -> Tensor {
    penalised_in(logits, logits, penalty, context)
}

/// The CPU applies the penalty: the row has F32 elements in order, one for each token of the
/// context.
pub open spec fn penalises_on_cpu(row: Tensor, context: Seq<u32>) -> bool {
    let dims = tensors::tensor_dims(row);
    &&& tensor_math::on_cpu(row)
    &&& tensor_math::dtype_is_single(tensor_math::tensor_dtype(row))
    &&& tensor_math::tensor_contiguous(row)
    &&& dims.len() == 1
    &&& forall|i: int| 0 <= i < context.len() ==> #[trigger] context[i] < dims[0]
}

/// Whether the CPU applies a penalty on these tokens to the row without fail.
pub fn can_penalise_on_cpu(row: &Tensor, context: &[u32]) -> (result: bool)
    ensures
        result == penalises_on_cpu(*row, context@),
{
    if !tensor_math::is_on_cpu(row) || !tensor_math::is_single(tensor_math::dtype_of(row))
        || !row.is_contiguous() {
        return false;
    }
    let dims = tensors::dims(row);
    if dims.len() != 1 {
        return false;
    }
    let mut i: usize = 0;
    while i < context.len()
        invariant
            i <= context@.len(),
            dims@.len() == 1,
            dims@ == tensors::tensor_dims(*row),
            forall|j: int| 0 <= j < i ==> #[trigger] context@[j] < dims@[0],
        decreases context@.len() - i,
    {
        if context[i] as usize >= dims[0] {
            assert(context@[i as int] >= tensors::tensor_dims(*row)[0]);
            return false;
        }
        i = i + 1;
    }
    true
}

/// Applies a repetition penalty in place. Each token of the context counts once. Where the tokens
/// have logits in a row of singles, only a device can fail at it.
pub fn apply_repeat_penalty_inplace(logits: Tensor, penalty: u32, context: &[u32]) -> (result:
    TensorResult)
    ensures
        match result {
            Ok(out) => {
                &&& out == penalised_logits(logits, penalty, context@)
                &&& tensors::tensor_dims(out) == tensors::tensor_dims(logits)
                &&& tensor_math::tensor_dtype(out) == tensor_math::tensor_dtype(logits)
                &&& tensor_math::tensor_device(out) == tensor_math::tensor_device(logits)
                &&& tensor_math::tensor_contiguous(out) == tensor_math::tensor_contiguous(logits)
            },
            Err(_) => context@.len() > 0 && !penalises_on_cpu(logits, context@),
        },
{
    let view = logits.clone();
    penalise_in(logits, &view, penalty, context)
}

fn penalise_in(logits: Tensor, view: &Tensor, penalty: u32, context: &[u32]) -> (result:
    TensorResult)
    ensures
        match result {
            Ok(out) => {
                &&& out == penalised_in(logits, *view, penalty, context@)
                &&& tensors::tensor_dims(out) == tensors::tensor_dims(logits)
                &&& tensor_math::tensor_dtype(out) == tensor_math::tensor_dtype(logits)
                &&& tensor_math::tensor_device(out) == tensor_math::tensor_device(logits)
                &&& tensor_math::tensor_contiguous(out) == tensor_math::tensor_contiguous(logits)
            },
            Err(_) => context@.len() > 0 && !penalises_on_cpu(*view, context@),
        },
{
    if context.len() == 0 {
        return Ok(logits);
    }
    proof {
        if penalises_on_cpu(*view, context@) {
            assert(context@[0] < tensors::tensor_dims(*view)[0]);
            tensors::lemma_positive_dims(tensors::tensor_dims(*view));
        }
        lemma_line_elements(1);
    }
    tensors::demand_elements(view)?;
    tensors::demand_size(view)?;
    let token_ids = recent::unique_tokens(context);
    let count: usize = token_ids.len();
    let ghost unique = token_ids@;
    proof {
        recent::law_distinct_sorted(context@);
        assert(context@.contains(context@[0]));
        assert(unique.contains(context@[0]));
        assert(count > 0);
        if penalises_on_cpu(*view, context@) {
            assert forall|i: int| 0 <= i < unique.len() implies #[trigger] unique[i]
                < tensors::tensor_dims(*view)[0] by {
                assert(unique.contains(unique[i]));
                assert(context@.contains(unique[i]));
                let k = context@.index_of(unique[i]);
                assert(context@[k] == unique[i]);
            }
        }
        assert(seq![count].drop_last() =~= Seq::empty());
        assert(tensors::dims_product(Seq::<usize>::empty()) == 1);
        assert(tensors::dims_product(seq![count]) == count);
    }
    let device = tensor_math::device_of(view);
    proof {
        tensors::lemma_countable(1, 1);
    }
    let factor = tensor_math::of_single(penalty, &device)?;
    let wide = tensor_math::to_double(&factor)?;
    let inverse = tensor_math::to_single(&tensor_math::reciprocal(&wide)?)?;
    let ids = tensor_math::of_ids(token_ids, &device)?;
    proof {
        if penalises_on_cpu(*view, context@) {
            lemma_increasing_below(unique, tensors::tensor_dims(*view)[0] as int);
            tensors::lemma_span_of_fewer(tensors::tensor_dims(*view), tensors::tensor_dims(ids));
            assert(ids == tensor_math::tensor_of_ids(unique, device));
            assert(tensor_math::numbers_below(ids, tensors::tensor_dims(*view)[0] as int));
        }
    }
    tensors::demand_size(&ids)?;
    let selected = tensor_math::gather_last(view, &ids)?;
    let zero = tensor_math::zeros_like(&selected)?;
    let mask = tensor_math::ge(&selected, &zero)?;
    let on_true = tensor_math::multiply(&selected, &inverse)?;
    let on_false = tensor_math::multiply(&selected, &factor)?;
    let updated = tensor_math::choose_by(&mask, &on_true, &on_false)?;
    tensor_math::scatter_last(logits, view, &ids, &updated)
}

/// There are no more increasing numbers below a limit than the limit says.
proof fn lemma_increasing_below(ids: Seq<u32>, limit: int)
    requires
        recent::increasing(ids),
        0 <= limit,
        forall|i: int| 0 <= i < ids.len() ==> #[trigger] ids[i] < limit,
    ensures
        ids.len() <= limit,
    decreases ids.len(),
{
    if ids.len() > 0 {
        let head = ids.drop_last();
        assert forall|i: int| 0 <= i < head.len() implies #[trigger] head[i] < ids.last() by {
            assert(ids[i] < ids[ids.len() - 1]);
        }
        assert(recent::increasing(head)) by {
            assert forall|i: int, j: int| 0 <= i < j < head.len() implies head[i] < head[j] by {
                assert(ids[i] < ids[j]);
            }
        }
        lemma_increasing_below(head, ids.last() as int);
        assert(ids[ids.len() - 1] < limit);
    }
}

/// Where the largest elements of each row are; a row of one element is copied first.
pub open spec fn largest_of(rows: Tensor) -> Tensor {
    tensor_math::tensor_argmax(tensor_math::stepped(rows))
}

/// Logits of a batch as singles, one row per sequence.
pub open spec fn batch_rows(logits: Tensor) -> Tensor {
    if tensors::tensor_dims(logits).len() == 3 {
        tensor_math::single_of(tensor_math::tensor_squeezed(logits, 1))
    } else {
        tensor_math::single_of(logits)
    }
}

/// Their shape: without the middle of three dimensions where that has one index.
pub open spec fn batch_rows_dims(dims: Seq<usize>) -> Seq<usize> {
    if dims.len() == 3 && dims[1] == 1 {
        dims.remove(1)
    } else {
        dims
    }
}

/// Singles are made of these logits without a device: they are singles, or the CPU converts them.
pub open spec fn becomes_single(logits: Tensor) -> bool {
    tensor_math::dtype_is_single(tensor_math::tensor_dtype(logits)) || tensor_math::on_cpu(logits)
}

/// Prepares the logits of a batch for sampling row by row. A device can fail at it, and more
/// elements than can be allocated are not converted.
pub fn prepare_batch_sampling_logits(logits: &Tensor) -> (result: TensorResult)
    ensures
        match result {
            Ok(out) => {
                &&& out == batch_rows(*logits)
                &&& tensors::tensor_dims(out) == batch_rows_dims(tensors::tensor_dims(*logits))
                &&& tensor_math::dtype_is_single(tensor_math::tensor_dtype(out))
                &&& tensor_math::on_cpu(*logits) ==> tensor_math::on_cpu(out)
                &&& tensor_math::tensor_contiguous(*logits) ==> tensor_math::tensor_contiguous(out)
            },
            Err(_) => !becomes_single(*logits),
        },
{
    let rank: usize = tensors::dims(logits).len();
    if rank == 3 {
        let squeezed = tensor_math::squeeze(logits, 1)?;
        proof {
            tensors::lemma_span_without(tensors::tensor_dims(*logits), 1);
        }
        tensor_math::make_single(&squeezed)
    } else {
        tensor_math::make_single(logits)
    }
}

/// Row `row` of prepared logits.
pub open spec fn row_of(rows: Tensor, row: int) -> Tensor {
    tensor_math::tensor_squeezed(tensors::tensor_narrowed(rows, 0, row as usize, 1), 0)
}

/// Prepared logits after the penalties of those of the first `count` rows that are alive.
pub open spec fn penalised_rows(
    rows: Tensor,
    seqs: Seq<&Sequence>,
    alive: Seq<bool>,
    count: int,
) -> Tensor
    decreases count,
{
    if count <= 0 {
        rows
    } else {
        let before = penalised_rows(rows, seqs, alive, count - 1);
        let seq = *seqs[count - 1];
        if alive[count - 1] && recent::penalised(seq) {
            penalised_in(
                before,
                row_of(before, count - 1),
                seq.repetition_penalty,
                recent::window(seq),
            )
        } else {
            before
        }
    }
}

/// Row `row` has nothing to penalise: it is not alive, not penalised, or looks back at no token.
pub open spec fn row_rests(seqs: Seq<&Sequence>, alive: Seq<bool>, row: int) -> bool {
    alive[row] && recent::penalised(*seqs[row]) ==> recent::window(*seqs[row]).len() == 0
}

/// The tokens that row `row` is penalised for are among the first `vocab` ones.
pub open spec fn row_in_range(seqs: Seq<&Sequence>, alive: Seq<bool>, row: int, vocab: int) -> bool {
    alive[row] && recent::penalised(*seqs[row]) ==> forall|i: int|
        0 <= i < recent::window(*seqs[row]).len() ==> #[trigger] recent::window(*seqs[row])[i]
            < vocab
}

/// Every row that is alive and penalised is there.
pub open spec fn penalised_rows_exist(
    seqs: Seq<&Sequence>,
    alive: Seq<bool>,
    rows: int,
    count: int,
) -> bool {
    forall|r: int|
        0 <= r < count && #[trigger] alive[r] && recent::penalised(*seqs[r]) ==> r < rows
}

/// The CPU takes the likeliest tokens of a batch: it has rows with elements, the tokens that rows are penalised for have logits, and the logits are in order
/// unless no row has anything to penalise.
pub open spec fn greedy_on_cpu(logits: Tensor, seqs: Seq<&Sequence>, alive: Seq<bool>) -> bool {
    let dims = batch_rows_dims(tensors::tensor_dims(logits));
    &&& tensor_math::on_cpu(logits)
    &&& dims.len() == 2
    &&& 0 < tensors::dims_product(dims)
    &&& penalised_rows_exist(seqs, alive, dims[0] as int, seqs.len() as int)
    &&& forall|r: int|
        0 <= r < seqs.len() ==> #[trigger] row_in_range(seqs, alive, r, dims[1] as int)
    &&& tensor_math::tensor_contiguous(logits) || forall|r: int|
        0 <= r < seqs.len() ==> #[trigger] row_rests(seqs, alive, r)
}

/// Takes the likeliest token of every row, after the penalties of the rows that are alive.
pub fn sample_batch_greedy(
    logits: &Tensor,
    seqs: &[&Sequence],
    alive: &[bool],
    buffers: &mut SamplingBuffers,
) -> (result: Result<BatchGreedySample, SamplingError>)
    ensures
        *final(buffers) == *old(buffers),
        match result {
            Ok(sample) => {
                &&& seqs@.len() == alive@.len()
                &&& plan::all_greedy(seqs@, alive@)
                &&& sample.mode == BatchGreedyMode::TensorFallback
                &&& sample.device_tokens is None
                &&& batch_rows_dims(tensors::tensor_dims(*logits)).len() == 2
                &&& sample.tokens@.len() == batch_rows_dims(tensors::tensor_dims(*logits))[0]
                &&& tensor_math::numbers_read(
                    largest_of(
                        penalised_rows(
                            batch_rows(*logits),
                            seqs@,
                            alive@,
                            seqs@.len() as int,
                        ),
                    ),
                    sample.tokens@,
                )
            },
            Err(SamplingError::LengthMismatch) => seqs@.len() != alive@.len(),
            Err(SamplingError::NonGreedyRow) => seqs@.len() == alive@.len() && !plan::all_greedy(
                seqs@,
                alive@,
            ),
            Err(SamplingError::Failed(_)) => {
                &&& seqs@.len() == alive@.len()
                &&& plan::all_greedy(seqs@, alive@)
                &&& !greedy_on_cpu(*logits, seqs@, alive@)
            },
            Err(_) => false,
        },
{
    if let Err(error) = plan::plan_batch_greedy(seqs, alive, false) {
        return Err(error);
    }
    match greedy_batch_tokens(logits, seqs, alive) {
        Ok(tokens) => Ok(
            BatchGreedySample {
                tokens,
                mode: BatchGreedyMode::TensorFallback,
                device_tokens: None,
            },
        ),
        Err(error) => Err(SamplingError::Failed(error)),
    }
}

fn greedy_batch_tokens(logits: &Tensor, seqs: &[&Sequence], alive: &[bool]) -> (result: Result<
    Vec<u32>,
    candle_core::Error,
>)
    requires
        seqs@.len() == alive@.len(),
    ensures
        ({
            let dims = batch_rows_dims(tensors::tensor_dims(*logits));
            match result {
                Ok(tokens) => {
                    &&& dims.len() == 2
                    &&& tokens@.len() == dims[0]
                    &&& penalised_rows_exist(seqs@, alive@, dims[0] as int, seqs@.len() as int)
                    &&& tensor_math::numbers_read(
                        largest_of(
                            penalised_rows(batch_rows(*logits), seqs@, alive@, seqs@.len() as int),
                        ),
                        tokens@,
                    )
                },
                Err(_) => !greedy_on_cpu(*logits, seqs@, alive@),
            }
        }),
{
    let mut rows = prepare_batch_sampling_logits(logits)?;
    let ghost first = rows;
    let mut r: usize = 0;
    while r < seqs.len()
        invariant
            r <= seqs@.len(),
            seqs@.len() == alive@.len(),
            rows == penalised_rows(first, seqs@, alive@, r as int),
            tensors::tensor_dims(rows) == tensors::tensor_dims(first),
            tensors::tensor_dims(first) == batch_rows_dims(tensors::tensor_dims(*logits)),
            tensors::tensor_dims(first).len() > 0 ==> penalised_rows_exist(
                seqs@,
                alive@,
                tensors::tensor_dims(first)[0] as int,
                r as int,
            ),
            greedy_on_cpu(*logits, seqs@, alive@) ==> tensor_math::on_cpu(rows),
            tensor_math::dtype_is_single(tensor_math::tensor_dtype(rows)),
            tensor_math::tensor_contiguous(*logits) ==> tensor_math::tensor_contiguous(rows),
        decreases seqs@.len() - r,
    {
        proof {
            if greedy_on_cpu(*logits, seqs@, alive@) {
                let dims = batch_rows_dims(tensors::tensor_dims(*logits));
                assert(row_in_range(seqs@, alive@, r as int, dims[1] as int));
                if !tensor_math::tensor_contiguous(*logits) {
                    assert(row_rests(seqs@, alive@, r as int));
                }
                assert(dims.remove(0)[0] == dims[1]);
                assert(alive@[r as int] == alive[r as int]);
            }
        }
        if alive[r] && recent::has_penalty(seqs[r]) {
            let row = take_row(&rows, r)?;
            proof {
                tensors::lemma_span_without(tensors::tensor_dims(rows), 0);
            }
            rows = penalise_in(
                rows,
                &row,
                seqs[r].repetition_penalty,
                recent::recent_tokens(seqs[r]),
            )?;
        }
        r = r + 1;
    }
    let choices = tensor_math::find_largest(&rows)?;
    proof {
        let dims = tensors::tensor_dims(rows);
        tensors::lemma_last_dim(dims);
        tensors::lemma_span_without(dims, dims.len() - 1);
        assert(dims.remove(dims.len() - 1) =~= dims.drop_last());
    }
    let tokens = tensor_math::read_tokens(&choices)?;
    let count: usize = tokens.len();
    proof {
        let dims = tensors::tensor_dims(rows);
        assert(dims.drop_last() == seq![count]);
        assert(dims.drop_last().len() == 1);
        assert(dims.drop_last()[0] == dims[0]);
    }
    Ok(tokens)
}

/// One row of logits as singles: the first two dimensions are dropped.
pub open spec fn only_row(logits: Tensor) -> Tensor {
    tensor_math::single_of(
        tensor_math::tensor_squeezed(tensor_math::tensor_squeezed(logits, 0), 0),
    )
}

/// The shape of logits without its first dimension, where that has one index.
pub open spec fn inner_dims(dims: Seq<usize>) -> Seq<usize> {
    if dims[0] == 1 {
        dims.remove(0)
    } else {
        dims
    }
}

/// Prepares the logits of a single sequence for sampling. It fails where there are too few
/// dimensions; else only a device can fail at it.
pub fn prepare_row(logits: &Tensor) -> (result: TensorResult)
    ensures
        ({
            let dims = tensors::tensor_dims(*logits);
            let deep = dims.len() > 0 && inner_dims(dims).len() > 0;
            match result {
                Ok(out) => {
                    &&& deep
                    &&& out == only_row(*logits)
                    &&& tensors::tensor_dims(out) == inner_dims(inner_dims(dims))
                    &&& tensor_math::dtype_is_single(tensor_math::tensor_dtype(out))
                },
                Err(_) => !(deep && becomes_single(*logits)),
            }
        }),
{
    let outer = tensor_math::squeeze(logits, 0)?;
    let inner = tensor_math::squeeze(&outer, 0)?;
    proof {
        tensors::lemma_span_without(tensors::tensor_dims(*logits), 0);
        tensors::lemma_span_without(tensors::tensor_dims(outer), 0);
    }
    tensor_math::make_single(&inner)
}

/// What is left to do to sample one sequence.
#[derive(Debug)]
pub enum SampleStep {
    /// A kernel of the device finds the likeliest token of this row.
    DeviceArgmax(Tensor),
    /// The token is sampled from this row of singles.
    Row(Tensor),
}

/// Starts to sample the token of one sequence from the logits of its forward pass. A greedy
/// sequence without a penalty needs no singles where the device has a kernel for the likeliest
/// token (`argmax_kernel`).
pub fn sample(seq: &Sequence, logits: &Tensor, argmax_kernel: bool) -> (result: Result<
    SampleStep,
    candle_core::Error,
>)
    ensures
        ({
            let dims = tensors::tensor_dims(*logits);
            let deep = dims.len() > 0 && inner_dims(dims).len() > 0;
            let direct = argmax_kernel && plan::greedy(*seq) && !recent::penalised(*seq);
            match result {
                Ok(SampleStep::DeviceArgmax(row)) => {
                    &&& deep && direct
                    &&& row == tensor_math::tensor_squeezed(
                        tensor_math::tensor_squeezed(*logits, 0),
                        0,
                    )
                    &&& tensors::tensor_dims(row) == inner_dims(inner_dims(dims))
                },
                Ok(SampleStep::Row(row)) => {
                    &&& deep && !direct
                    &&& row == only_row(*logits)
                    &&& tensors::tensor_dims(row) == inner_dims(inner_dims(dims))
                    &&& tensor_math::dtype_is_single(tensor_math::tensor_dtype(row))
                },
                Err(_) => !deep || (!direct && !becomes_single(*logits)),
            }
        }),
{
    if argmax_kernel && plan::is_greedy_no_penalty(seq) {
        let outer = tensor_math::squeeze(logits, 0)?;
        let inner = tensor_math::squeeze(&outer, 0)?;
        Ok(SampleStep::DeviceArgmax(inner))
    } else {
        let row = prepare_row(logits)?;
        Ok(SampleStep::Row(row))
    }
}

/// Takes row `row` out of prepared logits.
pub fn take_row(rows: &Tensor, row: usize) -> (result: TensorResult)
    ensures
        match result {
            Ok(out) => {
                &&& tensors::part_exists(tensors::tensor_dims(*rows), 0, row as int, 1)
                &&& out == row_of(*rows, row as int)
                &&& tensors::tensor_dims(out) == tensors::tensor_dims(*rows).remove(0)
                &&& tensor_math::tensor_dtype(out) == tensor_math::tensor_dtype(*rows)
                &&& tensor_math::tensor_device(out) == tensor_math::tensor_device(*rows)
                &&& tensor_math::tensor_contiguous(*rows) ==> tensor_math::tensor_contiguous(out)
            },
            Err(_) => !tensors::part_exists(tensors::tensor_dims(*rows), 0, row as int, 1),
        },
{
    let one = tensors::narrow_one(rows, row)?;
    proof {
        let dims = tensors::tensor_dims(*rows);
        assert(dims.update(0, 1usize).remove(0) =~= dims.remove(0));
    }
    tensor_math::squeeze(&one, 0)
}

/// A row of logits after the sequence's repetition penalty, if it has one.
pub open spec fn weighed(row: Tensor, sequence: Sequence) -> Tensor {
    if recent::penalised(sequence) {
        penalised_logits(row, sequence.repetition_penalty, recent::window(sequence))
    } else {
        row
    }
}

/// Checks that `row` is one row of singles, and applies the sequence's repetition penalty.
pub fn weigh_row(row: Tensor, seq: &Sequence) -> (result: Result<Tensor, SamplingError>)
    ensures
        ({
            let fits = tensors::tensor_dims(row).len() == 1 && tensor_math::dtype_is_single(tensor_math::tensor_dtype(row));
            match result {
                Ok(out) => {
                    &&& fits
                    &&& out == weighed(row, *seq)
                    &&& tensors::tensor_dims(out) == tensors::tensor_dims(row)
                    &&& tensor_math::tensor_dtype(out) == tensor_math::tensor_dtype(row)
                    &&& tensor_math::tensor_device(out) == tensor_math::tensor_device(row)
                },
                Err(SamplingError::NotARow { rank }) => !fits && rank == tensors::tensor_dims(
                    row,
                ).len(),
                Err(SamplingError::Failed(_)) => {
                    &&& fits && recent::penalised(*seq)
                    &&& recent::window(*seq).len() > 0
                    &&& !penalises_on_cpu(row, recent::window(*seq))
                },
                Err(_) => false,
            }
        }),
{
    let rank: usize = tensors::dims(&row).len();
    if rank != 1 || !tensor_math::is_single(tensor_math::dtype_of(&row)) {
        return Err(SamplingError::NotARow { rank });
    }
    if !recent::has_penalty(seq) {
        return Ok(row);
    }
    match apply_repeat_penalty_inplace(row, seq.repetition_penalty, recent::recent_tokens(seq)) {
        Ok(out) => Ok(out),
        Err(error) => Err(SamplingError::Failed(error)),
    }
}

/// The likeliest token of a row, on its device. A row without elements has none.
pub fn likeliest(row: &Tensor) -> (result: TensorResult)
    ensures
        match result {
            Ok(out) => {
                &&& out == largest_of(*row)
                &&& tensors::has_elements(*row)
                &&& tensors::tensor_dims(*row).len() > 0
                &&& tensors::tensor_dims(out) == tensors::tensor_dims(*row).drop_last()
                &&& tensor_math::dtype_is_number(tensor_math::tensor_dtype(out))
                &&& tensor_math::on_cpu(*row) ==> tensor_math::on_cpu(out)
            },
            Err(_) => !tensor_math::argmax_on_cpu(*row),
        },
{
    tensor_math::find_largest(row)
}

/// Gumbel noise from uniform noise.
pub open spec fn minus_gumbel(noise: Tensor) -> Tensor {
    tensor_math::tensor_log(tensor_math::tensor_negated(tensor_math::tensor_log(noise)))
}

/// Logits divided by a temperature.
pub open spec fn tempered(logits: Tensor, temperature: u64) -> Tensor {
    tensor_math::tensor_product(
        logits,
        tensor_math::tensor_converted(
            tensor_math::tensor_reciprocal(
                tensor_math::tensor_of_double(temperature, tensor_math::tensor_device(logits)),
            ),
            tensor_math::tensor_dtype(logits),
        ),
    )
}

/// The index that uniform noise chooses: the largest of logits over temperature, less the noise;
/// without noise at a temperature of at most zero.
pub open spec fn gumbel_choice(logits: Tensor, temperature: u64, noise: Tensor) -> Tensor {
    if floats::at_most_zero(temperature) {
        largest_of(logits)
    } else if temperature == floats::DOUBLE_ONE {
        largest_of(
            tensor_math::tensor_difference(logits, minus_gumbel(noise)),
        )
    } else {
        largest_of(
            tensor_math::tensor_difference(tempered(logits, temperature), minus_gumbel(noise)),
        )
    }
}

/// The noise has the logits' element type, and that is one of floats.
pub open spec fn noise_suits(logits: Tensor, noise: Tensor) -> bool {
    tensor_math::dtype_is_float(tensor_math::tensor_dtype(noise)) && tensor_math::tensor_dtype(
        noise,
    ) == tensor_math::tensor_dtype(logits)
}

/// Whether the noise has the logits' element type, and that is one of floats.
pub fn is_noise_for(logits: &Tensor, noise: &Tensor) -> (result: bool)
    ensures
        result == noise_suits(*logits, *noise),
{
    let dtype = tensor_math::dtype_of(noise);
    dtype.is_float() && tensor_math::same_dtype(dtype, tensor_math::dtype_of(logits))
}

/// Divides logits by a temperature. Only a device can fail at it.
fn divide_by(logits: &Tensor, temperature: u64) -> (result: TensorResult)
    requires
        tensors::sized(*logits),
        tensor_math::dtype_is_float(tensor_math::tensor_dtype(*logits)),
    ensures
        match result {
            Ok(out) => {
                &&& out == tempered(*logits, temperature)
                &&& tensors::tensor_dims(out) == tensors::tensor_dims(*logits)
                &&& tensor_math::tensor_dtype(out) == tensor_math::tensor_dtype(*logits)
                &&& tensors::dims_product(tensors::tensor_dims(out)) > 0
                    ==> tensor_math::tensor_contiguous(out)
                &&& tensor_math::on_cpu(*logits) ==> tensor_math::on_cpu(out)
            },
            Err(_) => !tensor_math::on_cpu(*logits),
        },
{
    let device = tensor_math::device_of(logits);
    let divisor = tensor_math::of_double(temperature, &device)?;
    assert(tensors::dims_product(Seq::<usize>::empty()) == 1);
    assert(tensors::dims_span(Seq::<usize>::empty()) == 1);
    let inverse = tensor_math::reciprocal(&divisor)?;
    let factor = tensor_math::convert(&inverse, tensor_math::dtype_of(logits))?;
    tensor_math::multiply(logits, &factor)
}

/// The CPU makes the choice: the logits have elements, and the noise, where it takes part, has
/// their shape.
pub open spec fn gumbel_on_cpu(logits: Tensor, temperature: u64, noise: Tensor) -> bool {
    &&& tensor_math::argmax_on_cpu(logits)
    &&& floats::at_most_zero(temperature) || {
        &&& tensor_math::on_cpu(noise)
        &&& tensors::tensor_dims(noise) == tensors::tensor_dims(logits)
    }
}

/// Chooses an index at random by the Gumbel-max trick. `noise` is uniform, above zero and below
/// one, in the shape of the logits. Only a device can fail at it where there are elements.
pub fn sample_gumbel_max_idx(logits: &Tensor, temperature: u64, noise: &Tensor) -> (result:
    TensorResult)
    requires
        floats::at_most_zero(temperature) || noise_suits(*logits, *noise),
    ensures
        match result {
            Ok(out) => {
                &&& out == gumbel_choice(*logits, temperature, *noise)
                &&& tensors::tensor_dims(*logits).len() > 0
                &&& tensors::tensor_dims(out) == tensors::tensor_dims(*logits).drop_last()
                &&& floats::at_most_zero(temperature) || tensors::tensor_dims(*noise)
                    == tensors::tensor_dims(*logits)
                &&& exists|compared: Tensor|
                    out == #[trigger] tensor_math::tensor_argmax(compared)
                        && tensors::tensor_dims(compared) == tensors::tensor_dims(*logits)
                &&& tensor_math::dtype_is_number(tensor_math::tensor_dtype(out))
                &&& tensor_math::on_cpu(*logits) ==> tensor_math::on_cpu(out)
            },
            Err(_) => !gumbel_on_cpu(*logits, temperature, *noise),
        },
{
    if floats::is_at_most_zero(temperature) {
        return tensor_math::find_largest(logits);
    }
    tensors::demand_size(logits)?;
    tensors::demand_size(noise)?;
    let inner = tensor_math::log(noise)?;
    let positive = tensor_math::negate(&inner)?;
    let minus_g = tensor_math::log(&positive)?;
    if temperature == floats::DOUBLE_ONE {
        let noisy = tensor_math::minus(logits, &minus_g)?;
        tensor_math::find_largest(&noisy)
    } else {
        let scaled = divide_by(logits, temperature)?;
        let noisy = tensor_math::minus(&scaled, &minus_g)?;
        tensor_math::find_largest(&noisy)
    }
}

/// How a choice among the likeliest tokens is made.
pub struct TopKChoice {
    pub k: usize,
    /// Temperature, as bits of a double.
    pub temperature: u64,
    /// Top-p, as bits of a double, where only as many candidates count as reach it.
    pub top_p: Option<u64>,
}

/// Where the probabilities of the candidates, added up from the likeliest on, are at most top-p.
pub open spec fn within_top_p(
    candidates: Tensor,
    choice: TopKChoice,
    top_p: u64,
    triangle: Tensor,
) -> Tensor {
    let probs = tensor_math::tensor_softmax(tempered(candidates, choice.temperature));
    let sums = tensor_math::tensor_reshaped(
        tensor_math::tensor_matmul(
            tensor_math::tensor_reshaped(probs, seq![1usize, choice.k]),
            triangle,
        ),
        seq![choice.k],
    );
    tensor_math::tensor_le(
        sums,
        tensor_math::tensor_as_single(
            tensor_math::tensor_of_double(top_p, tensor_math::tensor_device(candidates)),
        ),
    )
}

/// Candidates that count: those within top-p and the first one beyond. `place` is where the
/// shifted mask is written.
pub open spec fn nucleus(within: Tensor, place: Tensor, shift: Tensor, k: usize) -> Tensor {
    let blank = tensor_math::tensor_cleared(place);
    let shifted = if k > 1 {
        tensor_math::tensor_scattered(
            blank,
            blank,
            shift,
            tensors::tensor_narrowed(within, 0, 0, (k - 1) as usize),
        )
    } else {
        blank
    };
    let both = tensor_math::tensor_sum(
        tensor_math::tensor_as_single(within),
        tensor_math::tensor_as_single(shifted),
    );
    tensor_math::tensor_gt(both, tensor_math::tensor_zeros_like(both))
}

/// The candidates' logits with those ruled out that do not count, and the tensors that it took,
/// which the buffers hold afterwards.
pub open spec fn masked_candidates(
    candidates: Tensor,
    choice: TopKChoice,
    top_p: u64,
    held: SamplingBuffers,
    place: Tensor,
) -> Tensor {
    let k = choice.k;
    let within = within_top_p(candidates, choice, top_p, held.topk_cumsum_mats@[k]);
    let mask = nucleus(
        within,
        place,
        if k > 1 {
            held.topk_shift_idxs@[k]
        } else {
            place
        },
        k,
    );
    tensor_math::tensor_where(mask, candidates, held.topk_neg_vecs@[k])
}

/// The element type of the masks that rule candidates out.
pub open spec fn mask_dtype(
    candidates: Tensor,
    choice: TopKChoice,
    top_p: u64,
    held: SamplingBuffers,
) -> DType {
    tensor_math::tensor_dtype(
        within_top_p(candidates, choice, top_p, held.topk_cumsum_mats@[choice.k]),
    )
}

/// The CPU rules candidates out: they are `k` F32 elements, and what is kept for so many fits.
pub open spec fn masks_on_cpu(candidates: Tensor, k: usize, held: SamplingBuffers) -> bool {
    &&& tensor_math::on_cpu(candidates)
    &&& tensor_math::dtype_is_single(tensor_math::tensor_dtype(candidates))
    &&& tensors::tensor_dims(candidates) == seq![k]
    &&& buffers::kept_fit(held, k, tensor_math::tensor_device(candidates))
    &&& k <= u32::MAX
}

proof fn lemma_line_elements(k: usize)
    ensures
        tensors::dims_product(seq![k]) == k,
        tensors::dims_product(seq![1usize, k]) == k,
        tensors::dims_product(Seq::<usize>::empty()) == 1,
        tensors::dims_product(seq![1usize]) == 1,
{
    let nothing = Seq::<usize>::empty();
    assert(tensors::dims_product(nothing) == 1);
    assert(seq![k].drop_last() =~= nothing);
    assert(tensors::dims_product(seq![k]) == tensors::dims_product(nothing) * k);
    assert(seq![1usize].drop_last() =~= nothing);
    assert(tensors::dims_product(seq![1usize]) == 1);
    assert(seq![1usize, k].drop_last() =~= seq![1usize]);
    assert(tensors::dims_product(seq![1usize, k]) == tensors::dims_product(seq![1usize]) * k);
}

/// Rules out the candidates beyond top-p. Only a device can fail at it where what is kept fits.
fn mask_candidates(
    buffers: &mut SamplingBuffers,
    candidates: &Tensor,
    choice: &TopKChoice,
    top_p: u64,
) -> (result: Result<Tensor, BufferError>)
    requires
        choice.k > 0,
        tensors::shape_allocates(seq![choice.k, choice.k]),
        tensors::tensor_dims(*candidates) == seq![choice.k],
        tensor_math::dtype_is_float(tensor_math::tensor_dtype(*candidates)),
    ensures
        match result {
            Ok(out) => {
                &&& buffers::kept_for(
                    *old(buffers),
                    *final(buffers),
                    choice.k,
                    tensor_math::tensor_device(*candidates),
                    mask_dtype(*candidates, *choice, top_p, *final(buffers)),
                )
                &&& final(buffers).topk_shift_bufs@.contains_key(choice.k)
                &&& out == masked_candidates(
                    *candidates,
                    *choice,
                    top_p,
                    *final(buffers),
                    final(buffers).topk_shift_bufs@[choice.k],
                )
                &&& tensor_math::tensor_dtype(out) == tensor_math::tensor_dtype(*candidates)
                &&& tensors::tensor_dims(out) == seq![choice.k]
                &&& masks_on_cpu(*candidates, choice.k, *old(buffers)) ==> tensor_math::on_cpu(out)
            },
            Err(error) => {
                &&& error is Failed && !masks_on_cpu(*candidates, choice.k, *old(buffers))
                &&& buffers::kept_some(
                    *old(buffers),
                    *final(buffers),
                    choice.k,
                    tensor_math::tensor_device(*candidates),
                )
            },
        },
{
    let k: usize = choice.k;
    let ghost sure = masks_on_cpu(*candidates, k, *buffers);
    proof {
        lemma_line_elements(k);
        tensors::lemma_square_allocates(k);
    }
    let device = tensor_math::device_of(candidates);
    let scaled = failed(divide_by(candidates, choice.temperature))?;
    let probs = failed(tensor_math::softmax_last(&scaled))?;
    let triangle = failed(buffers.get_topk_cumsum_mat(k, &device))?;
    let mut line: Vec<usize> = Vec::new();
    line.push(1);
    line.push(k);
    assert(line@ =~= seq![1usize, k]);
    let mut flat: Vec<usize> = Vec::new();
    flat.push(k);
    assert(flat@ =~= seq![k]);
    proof {
        tensors::lemma_countable(1, k);
        tensors::lemma_countable(k, 1);
    }
    let row = failed(tensor_math::reshape(&probs, line))?;
    let mut square: Vec<usize> = Vec::new();
    square.push(k);
    square.push(k);
    assert(square@ =~= seq![k, k]);
    shaped(&triangle, &square)?;
    let summed = failed(tensor_math::matmul(&row, &triangle))?;
    let sums = failed(tensor_math::reshape(&summed, flat))?;
    let limit = failed(tensor_math::of_double(top_p, &device))?;
    let limit = failed(tensor_math::to_single(&limit))?;
    let within = failed(tensor_math::le(&sums, &limit))?;
    let place = failed(
        buffers.get_topk_shift_buf(k, &device, tensor_math::dtype_of(&within)),
    )?;
    let mut held: Vec<usize> = Vec::new();
    held.push(k);
    assert(held@ =~= seq![k]);
    shaped(&place, &held)?;
    let blank = failed(tensor_math::clear(place))?;
    let shifted = if k > 1 {
        proof {
            assert((k as u32) <= k) by (bit_vector);
            tensors::lemma_span_of_fewer(seq![k], seq![(k as u32) as usize]);
        }
        let shift = buffers.get_topk_shift_idx(k, &device)?;
        proof {
            lemma_line_elements((k - 1) as usize);
        }
        let mut fewer: Vec<usize> = Vec::new();
        fewer.push(k - 1);
        assert(fewer@ =~= seq![(k - 1) as usize]);
        proof {
            tensors::lemma_span_of_fewer(seq![k], seq![(k - 1) as usize]);
        }
        shaped(&shift, &fewer)?;
        let source = failed(tensors::narrow(&within, 0, 0, k - 1))?;
        assert(tensors::tensor_dims(source) =~= seq![(k - 1) as usize]);
        let view = blank.clone();
        failed(tensor_math::scatter_last(blank, &view, &shift, &source))?
    } else {
        blank
    };
    let inside = failed(tensor_math::to_single(&within))?;
    let beyond = failed(tensor_math::to_single(&shifted))?;
    let both = failed(tensor_math::plus(&inside, &beyond))?;
    let zero = failed(tensor_math::zeros_like(&both))?;
    let mask = failed(tensor_math::gt(&both, &zero))?;
    let ruled_out = failed(buffers.get_topk_neg_vec(k, &device))?;
    shaped(&ruled_out, &held)?;
    failed(tensor_math::choose_by(&mask, candidates, &ruled_out))
}

/// Fails where a tensor has no elements, or more than can be allocated.
fn full(tensor: &Tensor) -> (out: Result<(), BufferError>)
    ensures
        match out {
            Ok(_) => tensors::has_elements(*tensor) && tensors::sized(*tensor),
            Err(error) => error is Failed && !(tensors::has_elements(*tensor) && tensors::sized(
                *tensor,
            )),
        },
{
    if let Err(error) = tensors::demand_elements(tensor) {
        return Err(BufferError::Failed(error));
    }
    match tensors::demand_size(tensor) {
        Ok(_) => Ok(()),
        Err(error) => Err(BufferError::Failed(error)),
    }
}

/// Fails where a tensor has another shape.
fn shaped(tensor: &Tensor, dims: &Vec<usize>) -> (out: Result<(), BufferError>)
    ensures
        match out {
            Ok(_) => tensors::tensor_dims(*tensor) == dims@,
            Err(error) => error is Failed && tensors::tensor_dims(*tensor) != dims@,
        },
{
    match tensors::demand_dims(tensor, dims) {
        Ok(_) => Ok(()),
        Err(error) => Err(BufferError::Failed(error)),
    }
}

fn failed(result: TensorResult) -> (out: Result<Tensor, BufferError>)
    ensures
        match result {
            Ok(tensor) => out == Ok::<Tensor, BufferError>(tensor),
            Err(error) => out == Err::<Tensor, BufferError>(BufferError::Failed(error)),
        },
{
    match result {
        Ok(tensor) => Ok(tensor),
        Err(error) => Err(BufferError::Failed(error)),
    }
}

/// The token at a chosen place among the candidates.
pub open spec fn token_at(indices: Tensor, place: Tensor) -> Tensor {
    tensor_math::tensor_squeezed(
        tensor_math::tensor_gathered(
            indices,
            tensor_math::tensor_reshaped(place, seq![1usize]),
        ),
        0,
    )
}

/// The token that is chosen among the likeliest ones of a row, with these buffers.
pub open spec fn top_k_token(
    row: Tensor,
    indices: Tensor,
    choice: TopKChoice,
    noise: Tensor,
    held: SamplingBuffers,
) -> Tensor {
    let candidates = tensor_math::tensor_gathered(row, indices);
    let counted = match choice.top_p {
        None => candidates,
        Some(top_p) => masked_candidates(
            candidates,
            choice,
            top_p,
            held,
            held.topk_shift_bufs@[choice.k],
        ),
    };
    token_at(indices, gumbel_choice(counted, choice.temperature, noise))
}

/// The buffers have what a choice took, where it rules candidates out.
pub open spec fn choice_kept(
    row: Tensor,
    indices: Tensor,
    choice: TopKChoice,
    before: SamplingBuffers,
    after: SamplingBuffers,
) -> bool {
    let candidates = tensor_math::tensor_gathered(row, indices);
    match choice.top_p {
        None => after == before,
        Some(top_p) => buffers::kept_for(
            before,
            after,
            choice.k,
            tensor_math::tensor_device(candidates),
            mask_dtype(candidates, choice, top_p, after),
        ),
    }
}

/// The buffers have some of what a choice takes, where it rules candidates out.
pub open spec fn choice_kept_partly(
    row: Tensor,
    indices: Tensor,
    choice: TopKChoice,
    before: SamplingBuffers,
    after: SamplingBuffers,
) -> bool {
    let candidates = tensor_math::tensor_gathered(row, indices);
    after == before || (choice.top_p is Some && buffers::kept_some(
        before,
        after,
        choice.k,
        tensor_math::tensor_device(candidates),
    ))
}

/// The CPU makes the choice: row, indices and noise are in host memory and match, the indices are
/// numbers in range, and candidates can be ruled out where top-p asks for it.
pub open spec fn top_k_on_cpu(
    row: Tensor,
    indices: Tensor,
    choice: TopKChoice,
    noise: Tensor,
    held: SamplingBuffers,
) -> bool {
    &&& tensor_math::gathers_on_cpu(row, indices)
    &&& tensor_math::dtype_is_number(tensor_math::tensor_dtype(indices))
    &&& tensor_math::on_cpu(noise) && tensors::tensor_dims(noise) == seq![choice.k]
    &&& choice.top_p is Some ==> {
        &&& tensor_math::dtype_is_single(tensor_math::tensor_dtype(row))
        &&& choice.k <= u32::MAX
        &&& forall|device: Device| #[trigger]
            tensor_math::device_is_cpu(device) ==> buffers::kept_fit(held, choice.k, device)
    }
}

/// Chooses one of the likeliest tokens of a row at random.
///
/// `indices` are the places of the `k` likeliest tokens, likeliest first; `noise` is uniform and
/// has `k` elements.
pub fn choose_top_k(
    buffers: &mut SamplingBuffers,
    row: &Tensor,
    indices: &Tensor,
    choice: &TopKChoice,
    noise: &Tensor,
) -> (result: Result<Tensor, BufferError>)
    requires
        choice.k > 0,
        tensors::shape_allocates(seq![choice.k, choice.k]),
        tensors::tensor_dims(*indices) == seq![choice.k],
        noise_suits(*row, *noise),
    ensures
        match result {
            Ok(token) => {
                &&& token == top_k_token(*row, *indices, *choice, *noise, *final(buffers))
                &&& choice_kept(*row, *indices, *choice, *old(buffers), *final(buffers))
                &&& top_k_on_cpu(*row, *indices, *choice, *noise, *old(buffers)) ==> {
                    &&& tensor_math::on_cpu(token) && tensors::tensor_dims(token).len() == 0
                    &&& tensor_math::dtype_is_number(tensor_math::tensor_dtype(token))
                }
            },
            Err(error) => {
                &&& error is Failed
                &&& !top_k_on_cpu(*row, *indices, *choice, *noise, *old(buffers))
                &&& choice_kept_partly(*row, *indices, *choice, *old(buffers), *final(buffers))
            },
        },
{
    proof {
        lemma_line_elements(choice.k);
        lemma_line_elements(1);
        tensors::lemma_square_allocates(choice.k);
        tensors::lemma_countable(1, 1);
    }
    full(row)?;
    let candidates = failed(tensor_math::gather_last(row, indices))?;
    let counted = match choice.top_p {
        Some(top_p) => mask_candidates(buffers, &candidates, choice, top_p)?,
        None => candidates,
    };
    let place = failed(sample_gumbel_max_idx(&counted, choice.temperature, noise))?;
    assert(tensors::dims_span(Seq::<usize>::empty()) == 1);
    let mut one: Vec<usize> = Vec::new();
    one.push(1);
    assert(one@ =~= seq![1usize]);
    assert(seq![choice.k].drop_last() =~= Seq::empty());
    let ghost chosen = place;
    proof {
        tensors::lemma_countable(1, 1);
    }
    let place = failed(tensor_math::reshape(&place, one))?;
    proof {
        let compared = choose|compared: Tensor|
            chosen == #[trigger] tensor_math::tensor_argmax(compared) && tensors::tensor_dims(
                compared,
            ) == tensors::tensor_dims(counted);
        if top_k_on_cpu(*row, *indices, *choice, *noise, *old(buffers)) {
            assert(place == tensor_math::tensor_reshaped(
                tensor_math::tensor_argmax(compared),
                seq![1usize],
            ));
            assert(tensor_math::numbers_below(place, choice.k as int));
        }
    }
    let token = failed(tensor_math::gather_last(indices, &place))?;
    failed(tensor_math::squeeze(&token, 0))
}

} // verus!
