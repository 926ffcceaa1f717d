//! What the rounds of a batched decode step add up to.
use super::decode::{self, BatchDecode, RowOutcome};
use super::state::{self, InferenceEngine};
use crate::stats::Counter;
use vstd::prelude::*;

verus! {

/// Between two rounds the settings, the count of decoded tokens and the tokens of every live row
/// stay as they are.
pub open spec fn carries_over(
    earlier: InferenceEngine,
    later: InferenceEngine,
    step: BatchDecode,
) -> bool {
    &&& later.settings == earlier.settings
    &&& later.stats.total_decode_steps == earlier.stats.total_decode_steps
    &&& forall|r: int| #![trigger step.alive@[r]]
        0 <= r < step.batch@.len() && step.alive@[r] ==> {
            &&& later.has(step.batch@[r])
            &&& later.sequence(step.batch@[r]).tokens@ == earlier.sequence(
                step.batch@[r],
            ).tokens@
        }
}

/// The rounds of a step, from its beginning: the engine before and after each of them, the step
/// before each and after the last, and the outcomes.
pub open spec fn rounds_ran(
    before: Seq<InferenceEngine>,
    after: Seq<InferenceEngine>,
    steps: Seq<BatchDecode>,
    outcomes: Seq<Seq<RowOutcome>>,
) -> bool {
    let n = outcomes.len();
    &&& before.len() == n && after.len() == n && steps.len() == n + 1
    &&& steps[0].rounds_done == 0
    &&& steps[0].total_tokens == 0
    &&& n > 0 ==> steps[0].tracks(before[0])
    &&& forall|k: int| #![trigger outcomes[k]]
        0 <= k < n ==> {
            &&& decode::round_ready(before[k], steps[k], outcomes[k])
            &&& decode::round_ran(before[k], after[k], steps[k], steps[k + 1], outcomes[k])
        }
    &&& forall|k: int| #![trigger before[k]]
        0 < k < n ==> carries_over(after[k - 1], before[k], steps[k])
}

/// The tokens that a row took, in order.
pub open spec fn row_tokens(
    steps: Seq<BatchDecode>,
    outcomes: Seq<Seq<RowOutcome>>,
    r: int,
) -> Seq<u32>
    decreases outcomes.len(),
{
    if outcomes.len() == 0 {
        Seq::empty()
    } else {
        let k = outcomes.len() - 1;
        let earlier = row_tokens(steps, outcomes.drop_last(), r);
        if steps[k].took(outcomes[k], r) {
            earlier.push(outcomes[k][r]->token)
        } else {
            earlier
        }
    }
}

/// How many tokens the first `count` rows took together.
pub open spec fn all_taken(
    steps: Seq<BatchDecode>,
    outcomes: Seq<Seq<RowOutcome>>,
    count: int,
) -> int
    decreases count,
{
    if count <= 0 {
        0
    } else {
        all_taken(steps, outcomes, count - 1) + row_tokens(steps, outcomes, count - 1).len()
    }
}

proof fn lemma_row_tokens_of(
    steps: Seq<BatchDecode>,
    others: Seq<BatchDecode>,
    outcomes: Seq<Seq<RowOutcome>>,
    r: int,
)
    requires
        steps.len() >= outcomes.len(),
        others.len() >= outcomes.len(),
        forall|k: int| 0 <= k < outcomes.len() ==> #[trigger] steps[k] == others[k],
    ensures
        row_tokens(steps, outcomes, r) == row_tokens(others, outcomes, r),
        row_tokens(steps, outcomes, r).len() <= outcomes.len(),
    decreases outcomes.len(),
{
    if outcomes.len() > 0 {
        lemma_row_tokens_of(steps, others, outcomes.drop_last(), r);
        assert(steps[outcomes.len() - 1] == others[outcomes.len() - 1]);
    }
}

proof fn lemma_one_more_round(
    steps: Seq<BatchDecode>,
    others: Seq<BatchDecode>,
    outcomes: Seq<Seq<RowOutcome>>,
    count: int,
)
    requires
        outcomes.len() > 0,
        steps.len() >= outcomes.len(),
        others.len() >= outcomes.len() - 1,
        forall|k: int| 0 <= k < outcomes.len() - 1 ==> #[trigger] steps[k] == others[k],
    ensures
        all_taken(steps, outcomes, count) == all_taken(others, outcomes.drop_last(), count)
            + steps[outcomes.len() - 1].taken(outcomes[outcomes.len() - 1], count),
    decreases count,
{
    if count > 0 {
        lemma_one_more_round(steps, others, outcomes, count - 1);
        lemma_row_tokens_of(steps, others, outcomes.drop_last(), count - 1);
    }
}

proof fn lemma_counter_twice(counter: Counter, first: int, second: int)
    requires
        0 <= first,
        0 <= second,
    ensures
        counter.plus(first).plus(second) == counter.plus(first + second),
{
    let m = u64::MAX + 1;
    let total = counter.value + first;
    vstd::arithmetic::div_mod::lemma_add_mod_noop(total, second, m);
    vstd::arithmetic::div_mod::lemma_add_mod_noop(total % m, second, m);
    vstd::arithmetic::div_mod::lemma_mod_twice(total, m);
}

/// Over the rounds of a batched decode step no row takes more tokens than the settings allow per
/// sequence; the step's total and the engine's count of decoded tokens grow by exactly what the
/// rows took; and a row that still decodes in the last round has the tokens it had, followed by
/// the ones it took.
pub proof fn law_rounds_add_up(
    before: Seq<InferenceEngine>,
    after: Seq<InferenceEngine>,
    steps: Seq<BatchDecode>,
    outcomes: Seq<Seq<RowOutcome>>,
    r: int,
)
    requires
        rounds_ran(before, after, steps, outcomes),
        outcomes.len() > 0,
        0 <= r < steps[0].batch@.len(),
    ensures
        steps.last().batch == steps[0].batch,
        steps.last().rounds_done == outcomes.len(),
        outcomes.len() <= before[0].settings.decode_tokens_per_seq,
        row_tokens(steps, outcomes, r).len() <= before[0].settings.decode_tokens_per_seq,
        steps.last().total_tokens == all_taken(steps, outcomes, steps[0].batch@.len() as int),
        after.last().settings == before[0].settings,
        after.last().stats.total_decode_steps == before[0].stats.total_decode_steps.plus(
            steps.last().total_tokens as int,
        ),
        steps[outcomes.len() - 1].alive@[r] ==> {
            &&& after.last().has(steps[0].batch@[r])
            &&& after.last().sequence(steps[0].batch@[r]).tokens@ == before[0].sequence(
                steps[0].batch@[r],
            ).tokens@ + row_tokens(steps, outcomes, r)
        },
    decreases outcomes.len(),
{
    let n = outcomes.len() - 1;
    let rows = steps[0].batch@.len() as int;
    let earlier = steps.drop_last();
    let heads = outcomes.drop_last();
    assert(decode::round_ready(before[n], steps[n], outcomes[n]) && decode::round_ran(
        before[n],
        after[n],
        steps[n],
        steps[n + 1],
        outcomes[n],
    )) by {
        assert(outcomes[n] == outcomes[n]);
    }
    lemma_one_more_round(steps, earlier, outcomes, rows);
    lemma_row_tokens_of(steps, earlier, heads, r);
    lemma_row_tokens_of(steps, steps, outcomes, r);
    if n == 0 {
        lemma_nothing_taken(earlier, heads, rows);
        if steps[0].alive@[r] {
            assert(decode::row_ready(before[0], steps[0], r));
        }
    } else {
        let starts = before.drop_last();
        let ends = after.drop_last();
        assert(rounds_ran(starts, ends, earlier, heads)) by {
            assert forall|k: int| #![trigger heads[k]] 0 <= k < heads.len() implies {
                &&& decode::round_ready(starts[k], earlier[k], heads[k])
                &&& decode::round_ran(starts[k], ends[k], earlier[k], earlier[k + 1], heads[k])
            } by {
                assert(heads[k] == outcomes[k]);
            }
            assert forall|k: int| #![trigger starts[k]] 0 < k < heads.len() implies carries_over(
                ends[k - 1],
                starts[k],
                earlier[k],
            ) by {
                assert(starts[k] == before[k]);
            }
        }
        law_rounds_add_up(starts, ends, earlier, heads, r);
        assert(carries_over(after[n - 1], before[n], steps[n])) by {
            assert(before[n] == before[n]);
        }
        assert(earlier.last() == steps[n] && ends.last() == after[n - 1]);
        decode::lemma_taken_bounded(steps[n], outcomes[n], rows);
        lemma_counter_twice(
            before[0].stats.total_decode_steps,
            steps[n].total_tokens as int,
            steps[n].taken(outcomes[n], rows),
        );
        if steps[n].alive@[r] {
            assert(outcomes[n - 1] == heads[n - 1]);
            assert(steps[n - 1].took(outcomes[n - 1], r));
        }
    }
    if steps[n].alive@[r] {
        lemma_live_row(before[n], after[n], steps[n], steps[n + 1], outcomes[n], r);
    }
}

proof fn lemma_nothing_taken(
    steps: Seq<BatchDecode>,
    outcomes: Seq<Seq<RowOutcome>>,
    count: int,
)
    requires
        outcomes.len() == 0,
    ensures
        all_taken(steps, outcomes, count) == 0,
    decreases count,
{
    if count > 0 {
        lemma_nothing_taken(steps, outcomes, count - 1);
    }
}

/// In one round a live row gains the token that it took, or nothing.
proof fn lemma_live_row(
    before: InferenceEngine,
    after: InferenceEngine,
    first: BatchDecode,
    last: BatchDecode,
    outcomes: Seq<RowOutcome>,
    r: int,
)
    requires
        decode::round_ready(before, first, outcomes),
        decode::round_ran(before, after, first, last, outcomes),
        0 <= r < first.batch@.len(),
        before.has(first.batch@[r]),
    ensures
        after.has(first.batch@[r]),
        after.sequence(first.batch@[r]).tokens@ == if first.took(outcomes, r) {
            before.sequence(first.batch@[r]).tokens@.push(outcomes[r]->token)
        } else {
            before.sequence(first.batch@[r]).tokens@
        },
{
    let id = first.batch@[r];
    let at = state::index_of(before.sequences@, id);
    assert(0 <= at < before.sequences@.len() && before.sequences@[at].id == id);
    decode::law_round_adds_one_token(
        before.sequences@,
        after.sequences@,
        first,
        outcomes,
        r,
        at,
    );
    assert(after.sequences@[at].id == id) by {
        assert(after.sequences@[at] == after.sequences@[at]);
        match first.token_for(outcomes, before.sequences@[at].id, outcomes.len() as int) {
            Some(token) => {},
            None => {},
        }
    }
    state::lemma_index(after.sequences@, at);
}

} // verus!
