//! What sampling does to logits, element by element.
use super::buffers::{self, SamplingBuffers, RULED_OUT};
use super::draw::{self, RowDraw};
use super::plan::{self, NonGreedyRow, RowPlan, RowSamplingEnv};
use super::recent;
use super::rows::{self, TopKChoice};
use crate::elements::{self, Elements};
use crate::engine::sequence::Sequence;
use crate::floats;
use crate::tensor_math;
use crate::tensors;
use candle_core::{DType, Device, Tensor};
use candle_transformers::generation::LogitsProcessor;
use vstd::prelude::*;

verus! {

proof fn lemma_on_line(i: int, k: usize)
    ensures
        elements::within(seq![i], seq![k]) <==> 0 <= i < k,
        tensors::dims_product(seq![k]) == k,
        seq![k].drop_last() == Seq::<usize>::empty(),
        Seq::<int>::empty().push(i) == seq![i],
        elements::within(Seq::<int>::empty(), Seq::<usize>::empty()),
{
    assert(seq![k].drop_last() =~= Seq::<usize>::empty());
    assert(tensors::dims_product(Seq::<usize>::empty()) == 1);
    assert(tensors::dims_product(seq![k]) == tensors::dims_product(seq![k].drop_last()) * k);
    assert(Seq::<int>::empty().push(i) =~= seq![i]);
    assert(seq![i][0] == i);
}

/// Dividing by a temperature divides every logit.
proof fn lemma_tempered(e: Elements, logits: Tensor, temperature: u64, place: Seq<int>)
    requires
        elements::exact(e),
        elements::within(place, tensors::tensor_dims(logits)),
        (e.double)(temperature) != 0 as real,
    ensures
        tensors::tensor_dims(rows::tempered(logits, temperature)) == tensors::tensor_dims(logits),
        (e.at)(rows::tempered(logits, temperature), place) == (e.at)(logits, place) / (e.double)(
            temperature,
        ),
{
    let number = tensor_math::tensor_of_double(temperature, tensor_math::tensor_device(logits));
    let inverse = tensor_math::tensor_reciprocal(number);
    let factor = tensor_math::tensor_converted(inverse, tensor_math::tensor_dtype(logits));
    let nowhere = Seq::<int>::empty();
    assert(elements::within(nowhere, Seq::<usize>::empty()));
    assert(elements::all_are(e, number, Seq::empty(), (e.double)(temperature)));
    assert((e.at)(number, nowhere) == (e.double)(temperature));
    assert(elements::mapped_reads(e, number));
    assert((e.at)(inverse, nowhere) == (1 as real) / (e.double)(temperature));
    assert(elements::same_elements(e, factor, inverse));
    assert((e.at)(factor, nowhere) == (e.at)(inverse, nowhere));
    assert(elements::scaled_reads(e, logits, factor));
    let x = (e.at)(logits, place);
    let y = (e.double)(temperature);
    assert((e.at)(tensor_math::tensor_product(logits, factor), place) == x * ((1 as real) / y));
    assert(x * ((1 as real) / y) == x / y) by (nonlinear_arith)
        requires
            y != 0 as real,
    ;
}

/// Candidate `best` has the highest score, and is the first that has it.
pub open spec fn wins(score: spec_fn(int) -> real, count: int, best: int) -> bool {
    &&& 0 <= best < count
    &&& forall|j: int| 0 <= j < count ==> #[trigger] score(j) <= score(best)
    &&& forall|j: int| 0 <= j < best ==> #[trigger] score(j) < score(best)
}

/// A row of one element is copied as it is.
proof fn lemma_stepped(e: Elements, t: Tensor)
    requires
        elements::exact(e),
        tensors::has_elements(t),
    ensures
        elements::same_elements(e, tensor_math::stepped(t), t),
{
    if tensors::tensor_dims(t).len() > 0 && tensors::tensor_dims(t).last() == 1 {
        assert(elements::same_elements(e, tensors::tensor_copied(t), t));
    }
}

/// The index that is found is that of the largest element.
proof fn lemma_largest(e: Elements, t: Tensor, n: usize) -> (best: int)
    requires
        elements::exact(e),
        tensors::tensor_dims(t) == seq![n],
        n > 0,
    ensures
        tensors::tensor_dims(rows::largest_of(t)) == Seq::<usize>::empty(),
        (e.at)(rows::largest_of(t), Seq::empty()) == best as real,
        wins(|j: int| e.line(t, j), n as int, best),
{
    lemma_on_line(0, n);
    let ready = tensor_math::stepped(t);
    lemma_stepped(e, t);
    assert(elements::largest_reads(e, ready));
    let nowhere = Seq::<int>::empty();
    let best = choose|best: int|
        (#[trigger] (e.at)(rows::largest_of(t), nowhere)) == best as real
            && #[trigger] elements::is_largest(e, ready, nowhere, best);
    let score = |j: int| e.line(t, j);
    assert forall|j: int| 0 <= j < n implies #[trigger] score(j) == (e.at)(
        ready,
        nowhere.push(j),
    ) by {
        lemma_on_line(j, n);
        assert((e.at)(ready, seq![j]) == (e.at)(t, seq![j]));
    }
    best
}

/// The likeliest token of a row is the one with the largest logit.
pub proof fn law_likeliest_has_the_largest_logit(e: Elements, row: Tensor, choice: Tensor, token: u32)
    requires
        elements::exact(e),
        tensors::tensor_dims(row).len() == 1,
        tensors::has_elements(row),
        choice == rows::largest_of(row),
        e.took(choice, token),
    ensures
        wins(|j: int| e.line(row, j), tensors::tensor_dims(row)[0] as int, token as int),
{
    let n = tensors::tensor_dims(row)[0];
    assert(tensors::tensor_dims(row) =~= seq![n]);
    lemma_on_line(0, n);
    let best = lemma_largest(e, row, n);
    assert(best as real == token as int as real);
    assert(best == token);
}

/// The score of logit `x` at a temperature, with uniform noise `u`: at most zero means no noise.
pub open spec fn gumbel_score(e: Elements, x: real, temperature: u64, u: real) -> real {
    if floats::at_most_zero(temperature) {
        x
    } else {
        x / (e.double)(temperature) - (e.ln)((0 as real) - (e.ln)(u))
    }
}

proof fn lemma_gumbel(e: Elements, logits: Tensor, temperature: u64, noise: Tensor, n: usize) -> (best:
    int)
    requires
        elements::exact(e),
        tensors::tensor_dims(logits) == seq![n],
        n > 0,
        floats::at_most_zero(temperature) || (tensors::tensor_dims(noise) == seq![n] && (e.double)(
            temperature,
        ) != 0 as real),
    ensures
        tensors::tensor_dims(rows::gumbel_choice(logits, temperature, noise)) == Seq::<
            usize,
        >::empty(),
        (e.at)(rows::gumbel_choice(logits, temperature, noise), Seq::empty()) == best as real,
        wins(
            |j: int| gumbel_score(e, e.line(logits, j), temperature, e.line(noise, j)),
            n as int,
            best,
        ),
{
    let score = |j: int| gumbel_score(e, e.line(logits, j), temperature, e.line(noise, j));
    if floats::at_most_zero(temperature) {
        let best = lemma_largest(e, logits, n);
        let own = |j: int| e.line(logits, j);
        assert forall|j: int| 0 <= j < n implies #[trigger] score(j) == own(j) by {}
        best
    } else {
        let inner = tensor_math::tensor_log(noise);
        let positive = tensor_math::tensor_negated(inner);
        let minus_g = tensor_math::tensor_log(positive);
        let scaled = if temperature == floats::DOUBLE_ONE {
            logits
        } else {
            rows::tempered(logits, temperature)
        };
        let noisy = tensor_math::tensor_difference(scaled, minus_g);
        assert(elements::mapped_reads(e, noise));
        assert(elements::mapped_reads(e, inner));
        assert(elements::mapped_reads(e, positive));
        lemma_on_line(0, n);
        lemma_scaled(e, logits, temperature, 0, n);
        assert(tensors::tensor_dims(scaled) == seq![n]);
        assert(elements::pair_reads(e, scaled, minus_g));
        let best = lemma_largest(e, noisy, n);
        let own = |j: int| e.line(noisy, j);
        assert forall|j: int| 0 <= j < n implies #[trigger] score(j) == own(j) by {
            lemma_on_line(j, n);
            lemma_scaled(e, logits, temperature, j, n);
            let place = seq![j];
            assert((e.at)(inner, place) == (e.ln)((e.at)(noise, place)));
            assert((e.at)(positive, place) == (0 as real) - (e.at)(inner, place));
            assert((e.at)(minus_g, place) == (e.ln)((e.at)(positive, place)));
            assert((e.at)(noisy, place) == (e.at)(scaled, place) - (e.at)(minus_g, place));
        }
        assert(wins(own, n as int, best));
        assert(wins(score, n as int, best)) by {
            assert forall|j: int| 0 <= j < n implies #[trigger] score(j) <= score(best) by {
                assert(own(j) <= own(best));
            }
            assert forall|j: int| 0 <= j < best implies #[trigger] score(j) < score(best) by {
                assert(own(j) < own(best));
            }
        }
        best
    }
}

/// A temperature of 1 leaves logits as they are; another divides them.
proof fn lemma_scaled(e: Elements, logits: Tensor, temperature: u64, j: int, n: usize)
    requires
        elements::exact(e),
        tensors::tensor_dims(logits) == seq![n],
        0 <= j < n,
        (e.double)(temperature) != 0 as real,
    ensures
        tensors::tensor_dims(rows::tempered(logits, temperature)) == seq![n],
        e.line(rows::tempered(logits, temperature), j) == e.line(logits, j) / (e.double)(
            temperature,
        ),
        temperature == floats::DOUBLE_ONE ==> e.line(logits, j) == e.line(logits, j) / (e.double)(
            temperature,
        ),
{
    lemma_on_line(j, n);
    lemma_tempered(e, logits, temperature, seq![j]);
    let x = e.line(logits, j);
    assert(x == x / (1 as real)) by (nonlinear_arith);
}

/// The Gumbel-max trick picks the index whose logit over the temperature, plus Gumbel noise made of
/// uniform noise, is largest. At a temperature of at most zero it is the likeliest one.
pub proof fn law_gumbel_choice_wins(
    e: Elements,
    logits: Tensor,
    temperature: u64,
    noise: Tensor,
    choice: Tensor,
    token: u32,
)
    requires
        elements::exact(e),
        tensors::tensor_dims(logits).len() == 1,
        tensors::has_elements(logits),
        floats::at_most_zero(temperature) || (tensors::tensor_dims(noise) == tensors::tensor_dims(
            logits,
        ) && (e.double)(temperature) != 0 as real),
        choice == rows::gumbel_choice(logits, temperature, noise),
        e.took(choice, token),
    ensures
        wins(
            |j: int| gumbel_score(e, e.line(logits, j), temperature, e.line(noise, j)),
            tensors::tensor_dims(logits)[0] as int,
            token as int,
        ),
{
    let n = tensors::tensor_dims(logits)[0];
    assert(tensors::tensor_dims(logits) =~= seq![n]);
    lemma_on_line(0, n);
    let best = lemma_gumbel(e, logits, temperature, noise, n);
    assert(best as real == token as int as real);
    assert(best == token);
}

/// Logit `x` with a penalty `p`: it becomes less likely, whatever its sign.
pub open spec fn penalised_value(x: real, p: real) -> real {
    if x >= 0 as real {
        x / p
    } else {
        x * p
    }
}

/// Token `j` is one of the last `repeat_last_n` tokens of a sequence that has a penalty.
pub open spec fn recently_used(sequence: Sequence, j: int) -> bool {
    &&& sequence.repetition_penalty != floats::SINGLE_ONE
    &&& exists|at: int|
        {
            &&& 0 <= at < sequence.tokens@.len()
            &&& sequence.tokens@.len() - at <= sequence.repeat_last_n
            &&& #[trigger] sequence.tokens@[at] == j
        }
}

/// What a penalty makes of the logits of the tokens in question.
proof fn lemma_penalty_logits(
    e: Elements,
    view: Tensor,
    penalty: u32,
    context: Seq<u32>,
    n: usize,
    i: int,
)
    requires
        elements::exact(e),
        tensors::tensor_dims(view) == seq![n],
        recent::distinct_sorted(context).len() <= usize::MAX,
        0 <= i < recent::distinct_sorted(context).len(),
        recent::distinct_sorted(context)[i] < n,
        (e.single)(penalty) != 0 as real,
    ensures
        tensors::tensor_dims(rows::penalty_places(view, context)) == seq![
            recent::distinct_sorted(context).len() as usize,
        ],
        tensors::tensor_dims(rows::penalty_logits(view, penalty, context)) == seq![
            recent::distinct_sorted(context).len() as usize,
        ],
        e.line(rows::penalty_places(view, context), i) == recent::distinct_sorted(
            context,
        )[i] as int as real,
        e.line(rows::penalty_logits(view, penalty, context), i) == penalised_value(
            e.line(view, recent::distinct_sorted(context)[i] as int),
            (e.single)(penalty),
        ),
{
    let ids = recent::distinct_sorted(context);
    let count = ids.len() as usize;
    let device = tensor_math::tensor_device(view);
    let places = tensor_math::tensor_of_ids(ids, device);
    let factor = tensor_math::tensor_of_single(penalty, device);
    let wide = tensor_math::tensor_as_double(factor);
    let flipped = tensor_math::tensor_reciprocal(wide);
    let inverse = tensor_math::tensor_as_single(flipped);
    let selected = tensor_math::tensor_gathered(view, places);
    let zero = tensor_math::tensor_zeros_like(selected);
    let mask = tensor_math::tensor_ge(selected, zero);
    let yes = tensor_math::tensor_product(selected, inverse);
    let no = tensor_math::tensor_product(selected, factor);
    let from = ids[i] as int;
    let x = e.line(view, from);
    let p = (e.single)(penalty);
    lemma_on_line(i, count);
    lemma_on_line(0, 1);
    assert(elements::ids_read(e, ids, device));
    assert(e.line(places, i) == from as real);
    assert(elements::all_are(e, factor, seq![1usize], p));
    assert((e.at)(factor, seq![0int]) == p);
    assert(elements::same_elements(e, wide, factor));
    assert((e.at)(wide, seq![0int]) == p);
    assert(elements::mapped_reads(e, wide));
    assert((e.at)(flipped, seq![0int]) == (1 as real) / p);
    assert(elements::same_elements(e, inverse, flipped));
    assert((e.at)(inverse, seq![0int]) == (1 as real) / p);
    assert(elements::gathered_reads(e, view, places));
    assert(e.line(selected, i) == e.line(view, from));
    assert(elements::all_are(e, zero, tensors::tensor_dims(selected), 0 as real));
    assert(elements::pair_reads(e, selected, zero));
    assert(elements::scaled_reads(e, selected, inverse));
    assert(elements::scaled_reads(e, selected, factor));
    assert(elements::choice_reads(e, mask, yes, no));
    let place = seq![i];
    assert((e.at)(zero, place) == 0 as real);
    assert((e.at)(mask, place) == elements::flag(x >= 0 as real));
    assert((e.at)(yes, place) == x * ((1 as real) / p));
    assert((e.at)(no, place) == x * p);
    assert(x * ((1 as real) / p) == x / p) by (nonlinear_arith)
        requires
            p != 0 as real,
    ;
    assert((e.at)(tensor_math::tensor_where(mask, yes, no), place) == penalised_value(x, p));
}

/// The different tokens of a window, each at one place.
proof fn lemma_window_tokens(e: Elements, view: Tensor, context: Seq<u32>, n: usize, j: int)
    requires
        elements::exact(e),
        context.len() > 0,
        recent::distinct_sorted(context).len() <= usize::MAX,
        0 <= j < n,
    ensures
        tensors::tensor_dims(rows::penalty_places(view, context)) == seq![
            recent::distinct_sorted(context).len() as usize,
        ],
        recent::distinct_sorted(context).len() > 0,
        (forall|k: int| 0 <= k < context.len() ==> #[trigger] context[k] != j)
            ==> elements::untouched(e, rows::penalty_places(view, context), j),
        (exists|k: int| 0 <= k < context.len() && #[trigger] context[k] == j) ==> exists|i: int|
            {
                &&& 0 <= i < recent::distinct_sorted(context).len()
                &&& recent::distinct_sorted(context)[i] == j
                &&& #[trigger] elements::touched_once(e, rows::penalty_places(view, context), i, j)
            },
{
    let ids = recent::distinct_sorted(context);
    let places = rows::penalty_places(view, context);
    recent::law_distinct_sorted(context);
    assert(elements::ids_read(e, ids, tensor_math::tensor_device(view)));
    assert(context.contains(context[0]));
    assert(ids.contains(context[0]));
    if forall|k: int| 0 <= k < context.len() ==> #[trigger] context[k] != j {
        assert forall|i: int| 0 <= i < ids.len() implies #[trigger] e.line(places, i)
            != j as real by {
            assert(ids.contains(ids[i]));
            assert(context.contains(ids[i]));
            let k = context.index_of(ids[i]);
            assert(context[k] == ids[i]);
            assert(e.line(places, i) == ids[i] as int as real);
        }
    }
    if exists|k: int| 0 <= k < context.len() && #[trigger] context[k] == j {
        let k = choose|k: int| 0 <= k < context.len() && #[trigger] context[k] == j;
        assert(context.contains(context[k]));
        assert(ids.contains(context[k]));
        let i = ids.index_of(context[k]);
        assert(ids[i] == j);
        assert(e.line(places, i) == ids[i] as int as real);
        assert forall|m: int| 0 <= m < ids.len() && m != i implies #[trigger] e.line(places, m)
            != j as real by {
            assert(e.line(places, m) == ids[m] as int as real);
            if m < i {
                assert(ids[m] < ids[i]);
            } else {
                assert(ids[i] < ids[m]);
            }
        }
        assert(elements::touched_once(e, places, i, j));
    }
}

/// The tokens that a sequence is penalised for, by their places.
proof fn lemma_recently_used(sequence: Sequence, j: int)
    requires
        recent::penalised(sequence),
    ensures
        recently_used(sequence, j) <==> exists|k: int|
            0 <= k < recent::window(sequence).len() && #[trigger] recent::window(sequence)[k] == j,
{
    let window = recent::window(sequence);
    let skipped = sequence.tokens@.len() - window.len();
    if recently_used(sequence, j) {
        let at = choose|at: int|
            {
                &&& 0 <= at < sequence.tokens@.len()
                &&& sequence.tokens@.len() - at <= sequence.repeat_last_n
                &&& #[trigger] sequence.tokens@[at] == j
            };
        recent::law_window_looks_back(sequence, window, at);
        assert(window[at - skipped] == j);
    }
    if exists|k: int| 0 <= k < window.len() && #[trigger] window[k] == j {
        let k = choose|k: int| 0 <= k < window.len() && #[trigger] window[k] == j;
        assert(sequence.tokens@[skipped + k] == j);
    }
}

/// A repetition penalty lowers the logits of the tokens that a sequence used recently: positive
/// ones are divided by it, the others multiplied. Each counts once, however often it was used. All
/// other logits stay.
pub proof fn law_penalty_lowers_recent_tokens(
    e: Elements,
    row: Tensor,
    sequence: Sequence,
    out: Tensor,
    j: int,
)
    requires
        elements::exact(e),
        tensors::tensor_dims(row).len() == 1,
        0 <= j < tensors::tensor_dims(row)[0],
        forall|i: int|
            0 <= i < sequence.tokens@.len() ==> #[trigger] sequence.tokens@[i]
                < tensors::tensor_dims(row)[0],
        (e.single)(sequence.repetition_penalty) != 0 as real,
        out == rows::weighed(row, sequence),
    ensures
        tensors::tensor_dims(out) == tensors::tensor_dims(row),
        e.line(out, j) == if recently_used(sequence, j) {
            penalised_value(e.line(row, j), (e.single)(sequence.repetition_penalty))
        } else {
            e.line(row, j)
        },
{
    let n = tensors::tensor_dims(row)[0];
    assert(tensors::tensor_dims(row) =~= seq![n]);
    let context = recent::window(sequence);
    if recent::penalised(sequence) {
        lemma_recently_used(sequence, j);
        if context.len() > 0 {
            lemma_few_different(context);
            lemma_window_tokens(e, row, context, n, j);
            let places = rows::penalty_places(row, context);
            let updated = rows::penalty_logits(row, sequence.repetition_penalty, context);
            lemma_ids_below(sequence, n);
            lemma_penalty_logits(e, row, sequence.repetition_penalty, context, n, 0);
            assert(elements::scattered_reads(e, row, places, updated));
            if recently_used(sequence, j) {
                let i = choose|i: int|
                    {
                        &&& 0 <= i < recent::distinct_sorted(context).len()
                        &&& recent::distinct_sorted(context)[i] == j
                        &&& #[trigger] elements::touched_once(e, places, i, j)
                    };
                lemma_penalty_logits(e, row, sequence.repetition_penalty, context, n, i);
            } else {
                assert(elements::untouched(e, places, j));
            }
        }
    }
}

/// A window has no more different tokens than tokens.
proof fn lemma_few_different(context: Seq<u32>)
    ensures
        recent::distinct_sorted(context).len() <= context.len(),
    decreases context.len(),
{
    if context.len() > 0 {
        lemma_few_different(context.drop_last());
        lemma_one_more_id(recent::distinct_sorted(context.drop_last()), context.last());
    }
}

proof fn lemma_one_more_id(ids: Seq<u32>, id: u32)
    ensures
        recent::with_id(ids, id).len() <= ids.len() + 1,
    decreases ids.len(),
{
    if ids.len() > 0 && ids.last() > id {
        lemma_one_more_id(ids.drop_last(), id);
    }
}

/// The tokens of a window are tokens of the sequence.
proof fn lemma_ids_below(sequence: Sequence, n: usize)
    requires
        forall|i: int|
            0 <= i < sequence.tokens@.len() ==> #[trigger] sequence.tokens@[i] < n,
    ensures
        forall|i: int|
            0 <= i < recent::distinct_sorted(recent::window(sequence)).len()
                ==> #[trigger] recent::distinct_sorted(recent::window(sequence))[i] < n,
{
    let context = recent::window(sequence);
    let ids = recent::distinct_sorted(context);
    recent::law_distinct_sorted(context);
    assert forall|i: int| 0 <= i < ids.len() implies #[trigger] ids[i] < n by {
        assert(ids.contains(ids[i]));
        assert(context.contains(ids[i]));
        let k = context.index_of(ids[i]);
        assert(context[k] == ids[i]);
        assert(sequence.tokens@[sequence.tokens@.len() - context.len() + k] == ids[i]);
    }
}

/// What is kept for `k` candidates is what was made for them.
pub open spec fn as_made(held: SamplingBuffers, k: usize) -> bool {
    &&& held.topk_cumsum_mats@.contains_key(k) ==> exists|device: Device|
        held.topk_cumsum_mats@[k] == #[trigger] buffers::triangle_tensor(k, device)
    &&& held.topk_shift_idxs@.contains_key(k) ==> exists|device: Device|
        held.topk_shift_idxs@[k] == #[trigger] tensor_math::tensor_range(1, k as u32, device)
    &&& held.topk_neg_vecs@.contains_key(k) ==> exists|device: Device|
        held.topk_neg_vecs@[k] == #[trigger] buffers::ruled_out_tensor(k, device)
    &&& held.topk_shift_bufs@.contains_key(k) ==> tensors::tensor_dims(held.topk_shift_bufs@[k])
        == seq![k]
}

/// Buffers keep what was made for a number of candidates, and have all of it after a choice.
proof fn lemma_stays_as_made(
    e: Elements,
    before: SamplingBuffers,
    after: SamplingBuffers,
    k: usize,
    device: Device,
    dtype: DType,
)
    requires
        elements::exact(e),
        as_made(before, k),
        buffers::kept_for(before, after, k, device, dtype),
    ensures
        as_made(after, k),
        after.topk_cumsum_mats@.contains_key(k),
        after.topk_shift_bufs@.contains_key(k),
        k > 1 ==> after.topk_shift_idxs@.contains_key(k),
        after.topk_neg_vecs@.contains_key(k),
{
    let blank = tensors::tensor_of_zeros(seq![k], dtype, device);
    assert(elements::all_are(e, blank, seq![k], 0 as real));
    if !buffers::usable(before.topk_cumsum_mats@, k, device) {
        assert(after.topk_cumsum_mats@[k] == buffers::triangle_tensor(k, device));
    }
    if !(k <= 1 || buffers::usable(before.topk_shift_idxs@, k, device)) {
        assert(after.topk_shift_idxs@[k] == tensor_math::tensor_range(1, k as u32, device));
    }
    if !buffers::usable(before.topk_neg_vecs@, k, device) {
        assert(after.topk_neg_vecs@[k] == buffers::ruled_out_tensor(k, device));
    }
}

/// The square of ones on and above the diagonal.
proof fn lemma_triangle_cell(e: Elements, k: usize, device: Device, row: int, col: int)
    requires
        elements::exact(e),
        0 <= row < k,
        0 <= col < k,
        k * k <= usize::MAX,
    ensures
        tensors::tensor_dims(buffers::triangle_tensor(k, device)) == seq![k, k],
        e.cell(buffers::triangle_tensor(k, device), row, col) == elements::flag(row <= col),
{
    let data = buffers::triangle(k as int);
    let flat = tensor_math::tensor_of_ids(data, device);
    let square = tensor_math::tensor_reshaped(flat, seq![k, k]);
    let count = (k * k) as usize;
    let i = row * k + col;
    let kk = k as int;
    assert(kk * kk > 0) by (nonlinear_arith)
        requires
            kk > 0,
    ;
    buffers::law_triangle(kk, row, col);
    assert(elements::ids_read(e, data, device));
    assert(data.len() == count);
    lemma_on_line(i, count);
    let dims = seq![k, k];
    let place = seq![row, col];
    assert(dims.drop_last() =~= seq![k]);
    lemma_on_line(row, k);
    assert(tensors::dims_product(dims) == tensors::dims_product(seq![k]) * k);
    assert(elements::reshaped_reads(e, flat, dims));
    assert(0 <= i < kk * kk) by (nonlinear_arith)
        requires
            0 <= row < kk,
            0 <= col < kk,
            i == row * kk + col,
    ;
    assert(elements::within(place, dims)) by {
        assert(place[0] == row && place[1] == col);
    }
    assert(elements::within(seq![i], seq![count]));
    assert(elements::rank_of(place, dims) == i) by {
        reveal_with_fuel(elements::rank_of, 3);
        assert(place.drop_last() =~= seq![row]);
        assert(seq![row].drop_last() =~= Seq::<int>::empty());
    }
    assert(elements::rank_of(seq![i], seq![count]) == i) by {
        reveal_with_fuel(elements::rank_of, 2);
        assert(seq![i].drop_last() =~= Seq::<int>::empty());
    }
    assert((e.at)(square, place) == (e.at)(flat, seq![i]));
    assert(e.line(flat, i) == data[i] as int as real);
    assert(tensors::has_elements(square));
    assert(elements::same_elements(e, tensor_math::tensor_as_single(square), square));
    assert((e.at)(tensor_math::tensor_as_single(square), place) == (e.at)(square, place));
}

/// Adding up along a column of the square adds up the leading elements.
proof fn lemma_leading(
    values: spec_fn(int) -> real,
    terms: spec_fn(int) -> real,
    col: int,
    count: int,
)
    requires
        0 <= col,
        0 <= count,
        forall|m: int|
            0 <= m < count ==> #[trigger] terms(m) == values(m) * elements::flag(m <= col),
    ensures
        elements::total(terms, count) == elements::total(
            values,
            if count <= col + 1 {
                count
            } else {
                col + 1
            },
        ),
    decreases count,
{
    if count > 0 {
        lemma_leading(values, terms, col, count - 1);
        let x = values(count - 1);
        assert(terms(count - 1) == x * elements::flag(count - 1 <= col));
        assert(x * (1 as real) == x && x * (0 as real) == 0 as real) by (nonlinear_arith);
    }
}

/// Equal values add up to the same.
proof fn lemma_same_total(left: spec_fn(int) -> real, right: spec_fn(int) -> real, count: int)
    requires
        forall|m: int| 0 <= m < count ==> #[trigger] left(m) == right(m),
    ensures
        elements::total(left, count) == elements::total(right, count),
    decreases count,
{
    if count > 0 {
        lemma_same_total(left, right, count - 1);
        assert(left(count - 1) == right(count - 1));
    }
}

/// The probability of candidate `i` of `k` with these logits, at a temperature.
pub open spec fn share(
    e: Elements,
    logits: spec_fn(int) -> real,
    temperature: u64,
    k: int,
    i: int,
) -> real {
    (e.exp)(logits(i) / (e.double)(temperature)) / elements::total(
        |j: int| (e.exp)(logits(j) / (e.double)(temperature)),
        k,
    )
}

/// The probabilities of the first `count` candidates add up to at most top-p.
pub open spec fn within_mass(
    e: Elements,
    logits: spec_fn(int) -> real,
    choice: TopKChoice,
    top_p: u64,
    count: int,
) -> bool {
    elements::total(
        |j: int| share(e, logits, choice.temperature, choice.k as int, j),
        count,
    ) <= (e.double)(top_p)
}

/// Where the probabilities, added up, are at most top-p.
proof fn lemma_within(
    e: Elements,
    candidates: Tensor,
    choice: TopKChoice,
    top_p: u64,
    device: Device,
    i: int,
)
    requires
        elements::exact(e),
        tensors::tensor_dims(candidates) == seq![choice.k],
        choice.k * choice.k <= usize::MAX,
        0 <= i < choice.k,
        (e.double)(choice.temperature) != 0 as real,
    ensures
        ({
            let within = rows::within_top_p(
                candidates,
                choice,
                top_p,
                buffers::triangle_tensor(choice.k, device),
            );
            &&& tensors::tensor_dims(within) == seq![choice.k]
            &&& e.line(within, i) == elements::flag(
                within_mass(e, |j: int| e.line(candidates, j), choice, top_p, i + 1),
            )
        }),
{
    let k = choice.k;
    let triangle = buffers::triangle_tensor(k, device);
    let scaled = rows::tempered(candidates, choice.temperature);
    let probs = tensor_math::tensor_softmax(scaled);
    let one = seq![1usize, k];
    let flat = seq![k];
    let row = tensor_math::tensor_reshaped(probs, one);
    let summed = tensor_math::tensor_matmul(row, triangle);
    let sums = tensor_math::tensor_reshaped(summed, flat);
    let number = tensor_math::tensor_of_double(top_p, tensor_math::tensor_device(candidates));
    let limit = tensor_math::tensor_as_single(number);
    let logits = |j: int| e.line(candidates, j);
    let p = |j: int| share(e, logits, choice.temperature, k as int, j);
    lemma_on_line(i, k);
    lemma_on_line(0, 1);
    lemma_triangle_cell(e, k, device, 0, 0);
    lemma_scaled(e, candidates, choice.temperature, i, k);
    assert(elements::softmax_reads(e, scaled));
    assert(one.drop_last() =~= seq![1usize]);
    assert(tensors::dims_product(one) == tensors::dims_product(seq![1usize]) * k);
    assert(elements::reshaped_reads(e, probs, one));
    assert(elements::matmul_reads(e, row, triangle));
    assert(elements::reshaped_reads(e, summed, flat));
    assert forall|m: int| 0 <= m < k implies #[trigger] e.line(probs, m) == p(m) by {
        lemma_scaled(e, candidates, choice.temperature, m, k);
        let weights = |j: int| elements::weight(e, scaled, j);
        let own = |j: int| (e.exp)(logits(j) / (e.double)(choice.temperature));
        assert forall|j: int| 0 <= j < k implies #[trigger] weights(j) == own(j) by {
            lemma_scaled(e, candidates, choice.temperature, j, k);
        }
        lemma_same_total(weights, own, k as int);
    }
    assert forall|m: int| 0 <= m < k implies #[trigger] e.cell(row, 0, m) == p(m) by {
        lemma_on_line(m, k);
        lemma_line_as_row(m, k);
        assert((e.at)(row, seq![0int, m]) == (e.at)(probs, seq![m]));
        assert(e.line(probs, m) == p(m));
    }
    let terms = |m: int| e.cell(row, 0, m) * e.cell(triangle, m, i);
    assert forall|m: int| 0 <= m < k implies #[trigger] terms(m) == p(m) * elements::flag(
        m <= i,
    ) by {
        lemma_triangle_cell(e, k, device, m, i);
        assert(e.cell(row, 0, m) == p(m));
    }
    lemma_leading(p, terms, i, k as int);
    assert(e.cell(summed, 0, i) == elements::total(terms, k as int));
    lemma_line_as_row(i, k);
    assert(tensors::tensor_dims(summed) == seq![1usize, k]);
    assert((e.at)(sums, seq![i]) == (e.at)(summed, seq![0int, i]));
    assert(elements::all_are(e, number, Seq::empty(), (e.double)(top_p)));
    assert((e.at)(number, Seq::empty()) == (e.double)(top_p));
    assert(elements::same_elements(e, limit, number));
    assert((e.at)(limit, Seq::empty()) == (e.double)(top_p));
    assert(elements::scaled_reads(e, sums, limit));
    assert((e.at)(tensor_math::tensor_le(sums, limit), seq![i]) == elements::flag(
        (e.at)(sums, seq![i]) <= (e.double)(top_p),
    ));
}

proof fn lemma_line_as_row(i: int, k: usize)
    requires
        0 <= i < k,
    ensures
        elements::within(seq![0int, i], seq![1usize, k]),
        elements::within(seq![i], seq![k]),
        elements::rank_of(seq![0int, i], seq![1usize, k]) == i,
        elements::rank_of(seq![i], seq![k]) == i,
{
    reveal_with_fuel(elements::rank_of, 3);
    assert(seq![0int, i].drop_last() =~= seq![0int]);
    assert(seq![1usize, k].drop_last() =~= seq![1usize]);
    assert(seq![0int].drop_last() =~= Seq::<int>::empty());
    assert(seq![1usize].drop_last() =~= Seq::<usize>::empty());
    assert(seq![i].drop_last() =~= Seq::<int>::empty());
    assert(seq![k].drop_last() =~= Seq::<usize>::empty());
    assert(seq![0int, i][0] == 0 && seq![0int, i][1] == i);
    assert(seq![i][0] == i);
    assert(elements::rank_of(Seq::<int>::empty(), Seq::<usize>::empty()) == 0);
    assert(elements::rank_of(seq![0int], seq![1usize]) == 0);
    assert(elements::rank_of(seq![0int, i], seq![1usize, k]) == 0 * k + i) by {
        assert(seq![0int, i].last() == i && seq![1usize, k].last() == k);
    }
    assert(0 * k == 0) by (nonlinear_arith);
}

/// Candidate `i` counts: the probabilities up to it add up to at most top-p, or those before it do.
/// Without candidates before it, only the former.
pub open spec fn counts(
    e: Elements,
    logits: spec_fn(int) -> real,
    choice: TopKChoice,
    top_p: u64,
    i: int,
) -> bool {
    within_mass(e, logits, choice, top_p, i + 1) || (i > 0 && within_mass(
        e,
        logits,
        choice,
        top_p,
        i,
    ))
}

/// The mask shifted by one candidate.
proof fn lemma_shifted(
    e: Elements,
    within: Tensor,
    place: Tensor,
    device: Device,
    k: usize,
    i: int,
)
    requires
        elements::exact(e),
        0 <= i < k <= u32::MAX,
        tensors::tensor_dims(within) == seq![k],
        tensors::tensor_dims(place) == seq![k],
    ensures
        ({
            let shift = tensor_math::tensor_range(1, k as u32, device);
            let blank = tensor_math::tensor_cleared(place);
            let part = tensors::tensor_narrowed(within, 0, 0, (k - 1) as usize);
            let shifted = if k > 1 {
                tensor_math::tensor_scattered(blank, blank, shift, part)
            } else {
                blank
            };
            &&& tensors::tensor_dims(shifted) == seq![k]
            &&& e.line(shifted, i) == if i > 0 {
                e.line(within, i - 1)
            } else {
                0 as real
            }
        }),
{
    let shift = tensor_math::tensor_range(1, k as u32, device);
    let blank = tensor_math::tensor_cleared(place);
    let fewer = (k - 1) as usize;
    let part = tensors::tensor_narrowed(within, 0, 0, fewer);
    lemma_on_line(i, k);
    assert(elements::all_are(e, blank, seq![k], 0 as real));
    assert((e.at)(blank, seq![i]) == 0 as real);
    if k > 1 {
        assert(elements::range_reads(e, 1, k as u32, device));
        assert(elements::part_reads(e, within, 0, 0, fewer));
        assert(tensors::tensor_dims(part) =~= seq![fewer]);
        assert(elements::scattered_reads(e, blank, shift, part));
        if i > 0 {
            assert(elements::touched_once(e, shift, i - 1, i)) by {
                assert(e.line(shift, i - 1) == (1 + (i - 1)) as real);
                assert forall|j: int| 0 <= j < fewer && j != i - 1 implies #[trigger] e.line(
                    shift,
                    j,
                ) != i as real by {
                    assert(e.line(shift, j) == (1 + j) as real);
                }
            }
            lemma_on_line(i - 1, fewer);
            let from = seq![i - 1];
            assert((e.at)(part, from) == (e.at)(within, from.update(0, from[0] + 0usize)));
            assert(from.update(0, from[0] + 0usize) =~= from);
        } else {
            assert(elements::untouched(e, shift, 0)) by {
                assert forall|j: int| 0 <= j < fewer implies #[trigger] e.line(shift, j)
                    != 0 as real by {
                    assert(e.line(shift, j) == (1 + j) as real);
                }
            }
        }
    }
}

/// The nucleus: a candidate that counts keeps its logit, and every other gets the logit of those
/// that are ruled out.
pub proof fn law_nucleus_keeps_what_counts(
    e: Elements,
    candidates: Tensor,
    choice: TopKChoice,
    top_p: u64,
    held: SamplingBuffers,
    out: Tensor,
    i: int,
)
    requires
        elements::exact(e),
        tensors::tensor_dims(candidates) == seq![choice.k],
        choice.k <= u32::MAX,
        choice.k * choice.k <= usize::MAX,
        0 <= i < choice.k,
        (e.double)(choice.temperature) != 0 as real,
        as_made(held, choice.k),
        held.topk_cumsum_mats@.contains_key(choice.k),
        held.topk_shift_bufs@.contains_key(choice.k),
        held.topk_neg_vecs@.contains_key(choice.k),
        choice.k > 1 ==> held.topk_shift_idxs@.contains_key(choice.k),
        out == rows::masked_candidates(
            candidates,
            choice,
            top_p,
            held,
            held.topk_shift_bufs@[choice.k],
        ),
    ensures
        tensors::tensor_dims(out) == seq![choice.k],
        e.line(out, i) == if counts(e, |j: int| e.line(candidates, j), choice, top_p, i) {
            e.line(candidates, i)
        } else {
            RULED_OUT as int as real
        },
{
    let k = choice.k;
    let logits = |j: int| e.line(candidates, j);
    let d1 = choose|device: Device|
        held.topk_cumsum_mats@[k] == #[trigger] buffers::triangle_tensor(k, device);
    let d2 = choose|device: Device|
        held.topk_shift_idxs@[k] == #[trigger] tensor_math::tensor_range(1, k as u32, device);
    let d3 = choose|device: Device|
        held.topk_neg_vecs@[k] == #[trigger] buffers::ruled_out_tensor(k, device);
    let within = rows::within_top_p(candidates, choice, top_p, held.topk_cumsum_mats@[k]);
    let place = held.topk_shift_bufs@[k];
    let blank = tensor_math::tensor_cleared(place);
    let shifted = if k > 1 {
        tensor_math::tensor_scattered(
            blank,
            blank,
            held.topk_shift_idxs@[k],
            tensors::tensor_narrowed(within, 0, 0, (k - 1) as usize),
        )
    } else {
        blank
    };
    lemma_within(e, candidates, choice, top_p, d1, i);
    if i > 0 {
        lemma_within(e, candidates, choice, top_p, d1, i - 1);
    }
    lemma_shifted(e, within, place, d2, k, i);
    lemma_on_line(i, k);
    let inside = tensor_math::tensor_as_single(within);
    let beyond = tensor_math::tensor_as_single(shifted);
    assert(elements::same_elements(e, inside, within));
    assert(elements::same_elements(e, beyond, shifted));
    let both = tensor_math::tensor_sum(inside, beyond);
    assert(elements::pair_reads(e, inside, beyond));
    let zero = tensor_math::tensor_zeros_like(both);
    assert(elements::all_are(e, zero, tensors::tensor_dims(both), 0 as real));
    assert(elements::pair_reads(e, both, zero));
    let mask = tensor_math::tensor_gt(both, zero);
    let repeated = tensor_math::tensor_repeated(RULED_OUT, k, d3);
    let low = buffers::ruled_out_tensor(k, d3);
    assert(elements::all_are(e, repeated, seq![k], RULED_OUT as int as real));
    assert(elements::same_elements(e, tensor_math::tensor_as_single(repeated), repeated));
    assert(tensors::has_elements(repeated));
    assert(elements::choice_reads(e, mask, candidates, low));
    let here = seq![i];
    assert((e.at)(inside, here) == (e.at)(within, here));
    assert((e.at)(beyond, here) == (e.at)(shifted, here));
    assert((e.at)(both, here) == (e.at)(inside, here) + (e.at)(beyond, here));
    assert((e.at)(zero, here) == 0 as real);
    assert((e.at)(mask, here) == elements::flag((e.at)(both, here) > (e.at)(zero, here)));
    assert((e.at)(low, here) == (e.at)(repeated, here));
    assert((e.at)(repeated, here) == RULED_OUT as int as real);
    assert(out == tensor_math::tensor_where(mask, candidates, low));
    assert(e.line(within, i) == elements::flag(within_mass(e, logits, choice, top_p, i + 1)));
    if i > 0 {
        assert(e.line(within, i - 1) == elements::flag(within_mass(e, logits, choice, top_p, i)));
    }
}

/// The score that a candidate with this logit is chosen by. Top-p lets some count as ruled out.
pub open spec fn candidate_score(
    e: Elements,
    logits: spec_fn(int) -> real,
    choice: TopKChoice,
    noise: Tensor,
    i: int,
) -> real {
    let kept = match choice.top_p {
        Some(top_p) => if counts(e, logits, choice, top_p, i) {
            logits(i)
        } else {
            RULED_OUT as int as real
        },
        None => logits(i),
    };
    gumbel_score(e, kept, choice.temperature, e.line(noise, i))
}

/// Sampling among the likeliest tokens picks the candidate with the highest score: its logit over
/// the temperature plus Gumbel noise, with those outside of the nucleus ruled out, and gives the
/// token that this candidate stands for.
pub proof fn law_top_k_choice_wins(
    e: Elements,
    row: Tensor,
    indices: Tensor,
    choice: TopKChoice,
    noise: Tensor,
    before: SamplingBuffers,
    after: SamplingBuffers,
    tokens: Seq<u32>,
    chosen: Tensor,
    token: u32,
) -> (best: int)
    requires
        elements::exact(e),
        0 < choice.k <= u32::MAX,
        choice.k * choice.k <= usize::MAX,
        tensors::tensor_dims(row).len() == 1,
        tensors::tensor_dims(indices) == seq![choice.k],
        tensors::tensor_dims(noise) == seq![choice.k],
        tokens.len() == choice.k,
        e.took_all(indices, tokens),
        forall|i: int|
            0 <= i < tokens.len() ==> #[trigger] tokens[i] < tensors::tensor_dims(row)[0],
        (e.double)(choice.temperature) != 0 as real,
        as_made(before, choice.k),
        rows::choice_kept(row, indices, choice, before, after),
        chosen == rows::top_k_token(row, indices, choice, noise, after),
        e.took(chosen, token),
    ensures
        wins(
            |i: int|
                candidate_score(e, |j: int| e.line(row, tokens[j] as int), choice, noise, i),
            choice.k as int,
            best,
        ),
        token == tokens[best],
{
    let k = choice.k;
    let candidates = tensor_math::tensor_gathered(row, indices);
    let logits = |j: int| e.line(row, tokens[j] as int);
    let own = |j: int| e.line(candidates, j);
    assert(elements::gathered_reads(e, row, indices));
    assert forall|j: int| 0 <= j < k implies #[trigger] e.line(candidates, j) == logits(j) by {
        assert(e.line(indices, j) == tokens[j] as int as real);
        assert(e.line(candidates, j) == e.line(row, tokens[j] as int));
    }
    let counted = match choice.top_p {
        None => candidates,
        Some(top_p) => rows::masked_candidates(
            candidates,
            choice,
            top_p,
            after,
            after.topk_shift_bufs@[k],
        ),
    };
    let score = |i: int| candidate_score(e, logits, choice, noise, i);
    lemma_on_line(0, k);
    assert(tensors::tensor_dims(counted) == seq![k] && forall|i: int|
        0 <= i < k ==> #[trigger] gumbel_score(
            e,
            e.line(counted, i),
            choice.temperature,
            e.line(noise, i),
        ) == score(i)) by {
        if let Some(top_p) = choice.top_p {
            lemma_stays_as_made(
                e,
                before,
                after,
                k,
                tensor_math::tensor_device(candidates),
                rows::mask_dtype(candidates, choice, top_p, after),
            );
            law_nucleus_keeps_what_counts(e, candidates, choice, top_p, after, counted, 0);
            assert forall|i: int| 0 <= i < k implies #[trigger] gumbel_score(
                e,
                e.line(counted, i),
                choice.temperature,
                e.line(noise, i),
            ) == score(i) by {
                law_nucleus_keeps_what_counts(e, candidates, choice, top_p, after, counted, i);
                lemma_same_counts(e, own, logits, choice, top_p, i);
            }
        }
    }
    let best = lemma_gumbel(e, counted, choice.temperature, noise, k);
    let place = rows::gumbel_choice(counted, choice.temperature, noise);
    let theirs = |i: int|
        gumbel_score(e, e.line(counted, i), choice.temperature, e.line(noise, i));
    assert(wins(score, k as int, best)) by {
        assert forall|j: int| 0 <= j < k implies #[trigger] score(j) <= score(best) by {
            assert(theirs(j) <= theirs(best));
        }
        assert forall|j: int| 0 <= j < best implies #[trigger] score(j) < score(best) by {
            assert(theirs(j) < theirs(best));
        }
    }
    let one = tensor_math::tensor_reshaped(place, seq![1usize]);
    lemma_on_line(0, 1);
    assert(tensors::dims_product(Seq::<usize>::empty()) == 1);
    assert(elements::reshaped_reads(e, place, seq![1usize]));
    assert((e.at)(one, seq![0int]) == (e.at)(place, Seq::empty())) by {
        reveal_with_fuel(elements::rank_of, 2);
        assert(seq![0int].drop_last() =~= Seq::<int>::empty());
        assert(elements::rank_of(seq![0int], seq![1usize]) == 0);
        assert(elements::rank_of(Seq::<int>::empty(), Seq::<usize>::empty()) == 0);
    }
    let found = tensor_math::tensor_gathered(indices, one);
    assert(elements::gathered_reads(e, indices, one));
    assert(e.line(one, 0) == best as real);
    assert(e.line(found, 0) == e.line(indices, best));
    assert(elements::squeezed_reads(e, found, 0));
    assert(seq![1usize].remove(0) =~= Seq::<usize>::empty());
    assert(Seq::<int>::empty().insert(0, 0) =~= seq![0int]);
    assert((e.at)(chosen, Seq::empty()) == (e.at)(found, Seq::<int>::empty().insert(0, 0)));
    assert(e.line(indices, best) == tokens[best] as int as real);
    best
}

/// What counts depends on the candidates' logits alone.
proof fn lemma_same_counts(
    e: Elements,
    left: spec_fn(int) -> real,
    right: spec_fn(int) -> real,
    choice: TopKChoice,
    top_p: u64,
    i: int,
)
    requires
        0 <= i < choice.k,
        forall|j: int| 0 <= j < choice.k ==> #[trigger] left(j) == right(j),
    ensures
        counts(e, left, choice, top_p, i) == counts(e, right, choice, top_p, i),
{
    let k = choice.k as int;
    let t = choice.temperature;
    let a = |j: int| (e.exp)(left(j) / (e.double)(t));
    let b = |j: int| (e.exp)(right(j) / (e.double)(t));
    assert forall|j: int| 0 <= j < k implies #[trigger] a(j) == b(j) by {
        assert(left(j) == right(j));
    }
    lemma_same_total(a, b, k);
    let p = |j: int| share(e, left, t, k, j);
    let q = |j: int| share(e, right, t, k, j);
    assert forall|j: int| 0 <= j < k implies #[trigger] p(j) == q(j) by {
        assert(left(j) == right(j));
    }
    lemma_same_total(p, q, i + 1);
    lemma_same_total(p, q, i);
}

/// A tensor without elements, or one of singles, or one that is converted: its elements stay.
proof fn lemma_single_of(e: Elements, t: Tensor)
    requires
        elements::exact(e),
    ensures
        elements::same_elements(e, tensor_math::single_of(t), t),
{
    let dims = tensors::tensor_dims(t);
    assert(elements::same_elements(e, tensor_math::tensor_as_single(t), t));
    if !(tensor_math::dtype_is_single(tensor_math::tensor_dtype(t)) || tensors::has_elements(t)) {
        let blank = tensor_math::tensor_zeros_like(t);
        assert(elements::all_are(e, blank, dims, 0 as real));
        assert(elements::same_elements(e, tensor_math::tensor_as_single(blank), blank));
        assert forall|place: Seq<int>| elements::within(place, dims) implies #[trigger] (e.at)(
            tensor_math::single_of(t),
            place,
        ) == (e.at)(t, place) by {
            assert forall|d: int| 0 <= d < dims.len() implies #[trigger] dims[d] > 0 by {
                assert(0 <= place[d] < dims[d]);
            }
            tensors::lemma_positive_dims(dims);
        }
    }
}

/// Prepared logits of a batch have a row for each sequence, with the logits of its last position.
pub proof fn law_prepared_rows_keep_logits(
    e: Elements,
    logits: Tensor,
    out: Tensor,
    row: int,
    token: int,
)
    requires
        elements::exact(e),
        out == rows::batch_rows(logits),
    ensures
        tensors::tensor_dims(logits).len() == 3 && tensors::tensor_dims(logits)[1] == 1 && 0 <= row
            < tensors::tensor_dims(logits)[0] && 0 <= token < tensors::tensor_dims(logits)[2] ==> {
            &&& tensors::tensor_dims(out) == seq![
                tensors::tensor_dims(logits)[0],
                tensors::tensor_dims(logits)[2],
            ]
            &&& e.cell(out, row, token) == (e.at)(logits, seq![row, 0, token])
        },
        tensors::tensor_dims(logits).len() != 3 ==> elements::same_elements(e, out, logits),
{
    let dims = tensors::tensor_dims(logits);
    if dims.len() == 3 {
        let squeezed = tensor_math::tensor_squeezed(logits, 1);
        assert(elements::squeezed_reads(e, logits, 1));
        lemma_single_of(e, squeezed);
        if dims[1] == 1 && 0 <= row < dims[0] && 0 <= token < dims[2] {
            assert(dims.remove(1) =~= seq![dims[0], dims[2]]);
            let place = seq![row, token];
            assert(place[0] == row && place[1] == token);
            assert(elements::within(place, seq![dims[0], dims[2]]));
            assert((e.at)(out, place) == (e.at)(squeezed, place));
            assert(place.insert(1, 0) =~= seq![row, 0, token]);
        }
    } else {
        lemma_single_of(e, logits);
    }
}

/// A row of a batch has the batch's elements of that row.
proof fn lemma_row_of(e: Elements, rows: Tensor, row: usize, n: usize, j: int)
    requires
        elements::exact(e),
        tensors::tensor_dims(rows).len() == 2,
        tensors::tensor_dims(rows)[1] == n,
        row < tensors::tensor_dims(rows)[0],
        0 <= j < n,
    ensures
        tensors::tensor_dims(rows::row_of(rows, row as int)) == seq![n],
        e.line(rows::row_of(rows, row as int), j) == e.cell(rows, row as int, j),
{
    let part = tensors::tensor_narrowed(rows, 0, row, 1);
    assert(elements::part_reads(e, rows, 0, row, 1));
    assert(tensors::tensor_dims(part) =~= seq![1usize, n]);
    assert(elements::squeezed_reads(e, part, 0));
    assert(seq![1usize, n].remove(0) =~= seq![n]);
    lemma_on_line(j, n);
    lemma_line_as_row(j, n);
    let place = seq![j];
    assert(place.insert(0, 0) =~= seq![0int, j]);
    assert((e.at)(part, seq![0int, j]) == (e.at)(
        rows,
        seq![0int, j].update(0, seq![0int, j][0] + row),
    ));
    assert(seq![0int, j].update(0, seq![0int, j][0] + row) =~= seq![row as int, j]);
}

/// A row that is taken out of prepared logits has the logits of that row.
pub proof fn law_row_is_taken_out(e: Elements, logits: Tensor, row: usize, out: Tensor, j: int)
    requires
        elements::exact(e),
        tensors::tensor_dims(logits).len() == 2,
        row < tensors::tensor_dims(logits)[0],
        0 <= j < tensors::tensor_dims(logits)[1],
        out == rows::row_of(logits, row as int),
    ensures
        tensors::tensor_dims(out) == seq![tensors::tensor_dims(logits)[1]],
        e.line(out, j) == e.cell(logits, row as int, j),
{
    lemma_row_of(e, logits, row, tensors::tensor_dims(logits)[1], j);
}

/// The logit of token `j` in row `r` after the penalty of the row's sequence, where it is alive.
pub open spec fn row_logit(
    e: Elements,
    logits: Tensor,
    sequence: Sequence,
    alive: bool,
    r: int,
    j: int,
) -> real {
    let x = e.cell(logits, r, j);
    if alive && recently_used(sequence, j) {
        penalised_value(x, (e.single)(sequence.repetition_penalty))
    } else {
        x
    }
}

/// All tokens of the sequences have logits.
pub open spec fn all_have_logits(seqs: Seq<&Sequence>, n: int) -> bool {
    forall|r: int, i: int| #![trigger seqs[r].tokens@[i]]
        0 <= r < seqs.len() && 0 <= i < seqs[r].tokens@.len() ==> seqs[r].tokens@[i] < n
}

proof fn lemma_penalised_rows(
    e: Elements,
    logits: Tensor,
    seqs: Seq<&Sequence>,
    alive: Seq<bool>,
    count: int,
    r: int,
    j: int,
)
    requires
        elements::exact(e),
        tensors::tensor_dims(logits).len() == 2,
        seqs.len() == alive.len(),
        seqs.len() <= tensors::tensor_dims(logits)[0],
        0 <= count <= seqs.len(),
        0 <= r < tensors::tensor_dims(logits)[0],
        0 <= j < tensors::tensor_dims(logits)[1],
        all_have_logits(seqs, tensors::tensor_dims(logits)[1] as int),
        forall|s: int|
            0 <= s < seqs.len() ==> (e.single)((#[trigger] seqs[s]).repetition_penalty)
                != 0 as real,
    ensures
        tensors::tensor_dims(rows::penalised_rows(logits, seqs, alive, count))
            == tensors::tensor_dims(logits),
        e.cell(rows::penalised_rows(logits, seqs, alive, count), r, j) == if r < count {
            row_logit(e, logits, *seqs[r], alive[r], r, j)
        } else {
            e.cell(logits, r, j)
        },
    decreases count,
{
    if count > 0 {
        let c = count - 1;
        lemma_penalised_rows(e, logits, seqs, alive, c, r, j);
        let before = rows::penalised_rows(logits, seqs, alive, c);
        let seq = *seqs[c];
        let context = recent::window(seq);
        let n = tensors::tensor_dims(logits)[1];
        if alive[c] && recent::penalised(seq) {
            if context.len() > 0 {
                let view = rows::row_of(before, c);
                lemma_row_of(e, before, c as usize, n, j);
                lemma_few_different(context);
                lemma_window_tokens(e, view, context, n, j);
                assert forall|i: int| 0 <= i < seq.tokens@.len() implies #[trigger] seq.tokens@[i]
                    < n by {
                    assert(seqs[c].tokens@[i] < n);
                }
                lemma_ids_below(seq, n);
                let places = rows::penalty_places(view, context);
                let updated = rows::penalty_logits(view, seq.repetition_penalty, context);
                lemma_penalty_logits(e, view, seq.repetition_penalty, context, n, 0);
                assert(elements::scattered_row_reads(e, before, c as usize, places, updated));
                let out = tensor_math::tensor_scattered(before, view, places, updated);
                lemma_recently_used(seq, j);
                if r == c && recently_used(seq, j) {
                    let i = choose|i: int|
                        {
                            &&& 0 <= i < recent::distinct_sorted(context).len()
                            &&& recent::distinct_sorted(context)[i] == j
                            &&& #[trigger] elements::touched_once(e, places, i, j)
                        };
                    lemma_penalty_logits(e, view, seq.repetition_penalty, context, n, i);
                    assert(e.cell(out, c, j) == e.line(updated, i));
                } else {
                    if r == c {
                        assert(elements::untouched(e, places, j));
                    }
                    assert(e.cell(out, r, j) == e.cell(before, r, j));
                }
            } else {
                lemma_recently_used(seq, j);
            }
        }
    }
}

/// A greedy batch gives each sequence the token with the largest logit of its own row, after the
/// sequence's own penalty where its row is alive.
pub proof fn law_greedy_batch_wins(
    e: Elements,
    logits: Tensor,
    seqs: Seq<&Sequence>,
    alive: Seq<bool>,
    tokens: Seq<u32>,
    r: int,
)
    requires
        elements::exact(e),
        tensors::tensor_dims(rows::batch_rows(logits)).len() == 2,
        tensors::has_elements(rows::batch_rows(logits)),
        seqs.len() == alive.len(),
        seqs.len() == tensors::tensor_dims(rows::batch_rows(logits))[0],
        tokens.len() == seqs.len(),
        0 <= r < seqs.len(),
        all_have_logits(seqs, tensors::tensor_dims(rows::batch_rows(logits))[1] as int),
        forall|s: int|
            0 <= s < seqs.len() ==> (e.single)((#[trigger] seqs[s]).repetition_penalty)
                != 0 as real,
        e.took_all(
            rows::largest_of(
                rows::penalised_rows(rows::batch_rows(logits), seqs, alive, seqs.len() as int),
            ),
            tokens,
        ),
    ensures
        wins(
            |j: int| row_logit(e, rows::batch_rows(logits), *seqs[r], alive[r], r, j),
            tensors::tensor_dims(rows::batch_rows(logits))[1] as int,
            tokens[r] as int,
        ),
{
    let rows = rows::batch_rows(logits);
    let dims = tensors::tensor_dims(rows);
    let n = dims[1];
    tensors::lemma_last_dim(dims);
    let weighed = rows::penalised_rows(rows, seqs, alive, seqs.len() as int);
    lemma_penalised_rows(e, rows, seqs, alive, seqs.len() as int, r, 0);
    lemma_stepped(e, weighed);
    let ready = tensor_math::stepped(weighed);
    assert(elements::largest_reads(e, ready));
    let place = seq![r];
    assert(dims.drop_last() =~= seq![dims[0]]);
    lemma_on_line(r, dims[0]);
    let best = choose|best: int|
        (#[trigger] (e.at)(rows::largest_of(weighed), place)) == best as real
            && #[trigger] elements::is_largest(e, ready, place, best);
    assert(e.line(rows::largest_of(weighed), r) == tokens[r] as int as real);
    assert(best == tokens[r]);
    let score = |j: int| row_logit(e, rows, *seqs[r], alive[r], r, j);
    assert forall|j: int| 0 <= j < n implies #[trigger] score(j) == (e.at)(
        ready,
        place.push(j),
    ) by {
        lemma_penalised_rows(e, rows, seqs, alive, seqs.len() as int, r, j);
        assert(place.push(j) =~= seq![r, j]);
        assert(seq![r, j][0] == r && seq![r, j][1] == j);
        assert(elements::within(seq![r, j], dims));
        assert((e.at)(ready, seq![r, j]) == (e.at)(weighed, seq![r, j]));
    }
}

/// The token of a row is chosen as planned, with the sequence's own temperature, or 1, and its own
/// top-p, or 1: the likeliest one, the best after Gumbel noise, or the best of the candidates.
pub proof fn law_token_is_sampled_as_planned(
    e: Elements,
    sequence: Sequence,
    row: Tensor,
    plan: RowPlan,
    drawn: RowDraw,
    before: SamplingBuffers,
    after: SamplingBuffers,
    tokens: Seq<u32>,
    token: u32,
) -> (best: int)
    requires
        elements::exact(e),
        tensors::tensor_dims(row).len() == 1,
        tensors::has_elements(row),
        draw::draw_fits(plan, row, drawn),
        draw::plan_kept(sequence, row, plan, drawn, before, after),
        draw::device_choice(sequence, row, plan, drawn, after) matches Some(choice) ==> e.took(
            choice,
            token,
        ),
        plan matches RowPlan::Gumbel ==> tensors::tensor_dims(drawn->Noise_0)
            == tensors::tensor_dims(row),
        plan matches RowPlan::TopK { k, on_cpu: false, .. } ==> {
            &&& k <= plan::MAX_DEVICE_TOP_K
            &&& as_made(before, k)
            &&& tensors::tensor_dims(drawn->noise->Some_0) == seq![k]
            &&& tokens.len() == k
            &&& e.took_all(drawn->indices, tokens)
            &&& forall|i: int|
                0 <= i < tokens.len() ==> #[trigger] tokens[i] < tensors::tensor_dims(row)[0]
        },
        sequence.temperature matches Some(bits) ==> (e.double)(bits) != 0 as real,
    ensures
        ({
            let temperature = match sequence.temperature {
                Some(bits) => bits,
                None => floats::DOUBLE_ONE,
            };
            let n = tensors::tensor_dims(row)[0] as int;
            match plan {
                RowPlan::Greedy => wins(|j: int| e.line(row, j), n, token as int),
                RowPlan::Gumbel => wins(
                    |j: int|
                        gumbel_score(
                            e,
                            e.line(row, j),
                            temperature,
                            e.line(drawn->Noise_0, j),
                        ),
                    n,
                    token as int,
                ),
                RowPlan::TopK { k, masked, on_cpu: false } => {
                    let top_p = match sequence.top_p {
                        Some(bits) => bits,
                        None => floats::DOUBLE_ONE,
                    };
                    let choice = TopKChoice {
                        k,
                        temperature,
                        top_p: if masked {
                            Some(top_p)
                        } else {
                            None
                        },
                    };
                    &&& wins(
                        |i: int|
                            candidate_score(
                                e,
                                |j: int| e.line(row, tokens[j] as int),
                                choice,
                                drawn->noise->Some_0,
                                i,
                            ),
                        k as int,
                        best,
                    )
                    &&& token == tokens[best]
                },
                _ => true,
            }
        }),
{
    let temperature = plan::temperature_of(sequence);
    assert((e.double)(temperature) != 0 as real);
    match plan {
        RowPlan::Greedy => {
            law_likeliest_has_the_largest_logit(e, row, rows::largest_of(row), token);
            0
        },
        RowPlan::Gumbel => {
            let noise = drawn->Noise_0;
            law_gumbel_choice_wins(
                e,
                row,
                temperature,
                noise,
                rows::gumbel_choice(row, temperature, noise),
                token,
            );
            0
        },
        RowPlan::TopK { k, masked, on_cpu } => {
            if on_cpu {
                0
            } else {
                let choice = draw::top_k_choice(sequence, k, masked);
                let noise = drawn->noise->Some_0;
                assert(k * k <= usize::MAX) by (nonlinear_arith)
                    requires
                        k <= 64,
                ;
                law_top_k_choice_wins(
                    e,
                    row,
                    drawn->indices,
                    choice,
                    noise,
                    before,
                    after,
                    tokens,
                    rows::top_k_token(row, drawn->indices, choice, noise, after),
                    token,
                )
            }
        },
        RowPlan::Processor => 0,
    }
}

/// A temperature of at most zero, and nothing else, makes the choice greedy. Otherwise a top-p
/// strictly between 0 and 1 is never passed over, and a device looks at no more candidates than
/// were asked for, nor more than it can.
pub proof fn law_plan_heeds_the_request(
    sequence: Sequence,
    on_cuda: bool,
    vocab: int,
    env: RowSamplingEnv<'_>,
    plan: RowPlan,
)
    requires
        0 <= vocab <= usize::MAX,
        plan == plan::row_plan(sequence, on_cuda, vocab, env),
    ensures
        plan is Greedy <==> (sequence.temperature matches Some(bits) && floats::at_most_zero(bits)),
        !(plan is Greedy) && (sequence.top_p matches Some(bits) && floats::inside_unit(bits))
            ==> plan is Processor || (plan matches RowPlan::TopK { masked, .. } && masked),
        plan matches RowPlan::TopK { k, masked, .. } ==> {
            &&& on_cuda
            &&& 0 < k <= plan::MAX_DEVICE_TOP_K
            &&& k < vocab
            &&& masked <==> (sequence.top_p matches Some(bits) && floats::inside_unit(bits))
            &&& (sequence.top_k matches Some(asked) && asked > 0) ==> {
                &&& k <= sequence.top_k->Some_0
                &&& k == sequence.top_k->Some_0 || k == plan::MAX_DEVICE_TOP_K
            }
        },
        on_cuda && !(plan is Greedy) && (sequence.top_k matches Some(asked) && 0 < asked < vocab)
            ==> vocab <= plan::MAX_DEVICE_TOP_K || plan is TopK,
{
}

/// A device is told of each row that is alive what its sequence asks for, and of the others nothing
/// that would change a logit.
pub proof fn law_device_rows_heed_the_requests(sequence: Sequence, alive: bool, row: int, told: NonGreedyRow)
    requires
        told == plan::device_row(sequence, alive, row),
        alive ==> plan::device_samples(sequence),
    ensures
        !alive ==> told.penalty == floats::SINGLE_ONE && told.top_k == 0,
        alive ==> told.penalty == sequence.repetition_penalty,
        alive && (sequence.temperature matches Some(bits) && floats::at_most_zero(bits))
            ==> told.top_k == 1,
        alive && !(sequence.temperature matches Some(bits) && floats::at_most_zero(bits)) ==> {
            &&& told.temperature == match sequence.temperature {
                Some(bits) => bits,
                None => floats::DOUBLE_ONE,
            }
            &&& told.top_p == match sequence.top_p {
                Some(bits) => bits,
                None => floats::DOUBLE_ONE,
            }
            &&& sequence.top_k == Some(told.top_k as usize)
        },
{
}

/// The elements of `candidates` are the logits of these tokens.
pub open spec fn offers(e: Elements, candidates: Tensor, row: Tensor, tokens: Seq<u32>) -> bool {
    forall|i: int|
        0 <= i < tokens.len() ==> #[trigger] e.line(candidates, i) == e.line(row, tokens[i] as int)
}

/// Where the host-side sampler draws, it draws among the logits of the candidates, and the token is
/// the candidate that it drew; or it draws among all logits of the row, and the token is the index
/// that it drew.
pub proof fn law_host_draws_what_is_offered(
    e: Elements,
    row: Tensor,
    plan: RowPlan,
    drawn: RowDraw,
    processor: LogitsProcessor,
    token: u32,
)
    requires
        elements::exact(e),
        tensors::tensor_dims(row).len() == 1,
        tensors::has_elements(row),
        draw::draw_fits(plan, row, drawn),
        draw::host_draws(row, plan, drawn, processor, token),
    ensures
        plan matches RowPlan::TopK { k, .. } ==> exists|
            tokens: Seq<u32>,
            place: u32,
            candidates: Tensor,
        |
            {
                &&& #[trigger] tensor_math::numbers_read(drawn->indices, tokens)
                &&& #[trigger] draw::index_drawn(processor, candidates, place)
                &&& place < tokens.len() ==> token == tokens[place as int]
                &&& place >= tokens.len() ==> token == tokens[0]
                &&& tokens.len() == k && e.took_all(drawn->indices, tokens) && (forall|i: int|
                    0 <= i < tokens.len() ==> #[trigger] tokens[i] < tensors::tensor_dims(row)[0])
                    ==> offers(e, candidates, row, tokens)
            },
        plan is Processor ==> exists|all: Tensor|
            elements::same_elements(e, all, row) && #[trigger] draw::index_drawn(
                processor,
                all,
                token,
            ),
{
    match plan {
        RowPlan::TopK { k, .. } => {
            let indices = drawn->indices;
            let picked = tensor_math::tensor_gathered(row, indices);
            let hosted = draw::tensor_on_host(picked);
            let candidates = tensor_math::stepped(hosted);
            let (tokens, place) = choose|tokens: Seq<u32>, place: u32|
                {
                    &&& #[trigger] tensor_math::numbers_read(indices, tokens)
                    &&& #[trigger] draw::index_drawn(processor, candidates, place)
                    &&& token == draw::placed(tokens, place)
                };
            assert(elements::gathered_reads(e, row, indices));
            assert(elements::same_elements(e, hosted, picked));
            if tokens.len() == k && e.took_all(indices, tokens) && (forall|i: int|
                0 <= i < tokens.len() ==> #[trigger] tokens[i] < tensors::tensor_dims(row)[0]) {
                assert(tensors::tensor_dims(hosted) == seq![k]);
                lemma_on_line(0, k);
                lemma_stepped(e, hosted);
                assert forall|i: int| 0 <= i < tokens.len() implies #[trigger] e.line(candidates, i)
                    == e.line(row, tokens[i] as int) by {
                    lemma_on_line(i, k);
                    assert(e.line(indices, i) == tokens[i] as int as real);
                    assert(e.line(picked, i) == e.line(row, tokens[i] as int));
                    assert((e.at)(hosted, seq![i]) == (e.at)(picked, seq![i]));
                    assert((e.at)(candidates, seq![i]) == (e.at)(hosted, seq![i]));
                }
                assert(offers(e, candidates, row, tokens));
            }
            assert(tensor_math::numbers_read(indices, tokens));
            assert(draw::index_drawn(processor, candidates, place));
        },
        RowPlan::Processor => {
            lemma_stepped(e, row);
        },
        _ => {},
    }
}

/// The logits of a single sequence become one row of just those logits.
pub proof fn law_only_row_keeps_logits(e: Elements, logits: Tensor, vocab: usize, token: int)
    requires
        elements::exact(e),
        tensors::tensor_dims(logits) == seq![1usize, 1usize, vocab],
        0 <= token < vocab,
    ensures
        tensors::tensor_dims(rows::only_row(logits)) == seq![vocab],
        e.line(rows::only_row(logits), token) == (e.at)(logits, seq![0int, 0int, token]),
{
    let first = tensor_math::tensor_squeezed(logits, 0);
    let second = tensor_math::tensor_squeezed(first, 0);
    assert(elements::squeezed_reads(e, logits, 0));
    assert(seq![1usize, 1usize, vocab].remove(0) =~= seq![1usize, vocab]);
    assert(elements::squeezed_reads(e, first, 0));
    assert(seq![1usize, vocab].remove(0) =~= seq![vocab]);
    lemma_single_of(e, second);
    lemma_on_line(token, vocab);
    lemma_line_as_row(token, vocab);
    let place = seq![token];
    let row = seq![0int, token];
    assert(place.insert(0, 0) =~= row);
    assert(row.insert(0, 0) =~= seq![0int, 0int, token]);
    assert(row[0] == 0 && row[1] == token);
    assert(elements::within(row, seq![1usize, vocab]));
    assert((e.at)(second, place) == (e.at)(first, row));
    assert((e.at)(rows::only_row(logits), place) == (e.at)(second, place));
}

} // verus!
