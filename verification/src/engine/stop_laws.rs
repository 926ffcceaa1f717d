//! When generation is over, however a sequence is decoded.
use super::decode::{self, BatchDecode, RowOutcome};
use super::lifecycle::{self, FinishReport};
use super::paged;
use super::sequence::{FinishReason, Sequence, SequenceStatus};
use super::state::{self, InferenceEngine};
use super::turns::{self, PrefillTimings};
use vstd::prelude::*;

verus! {

/// Each of a sequence's stop tokens ends it, and is the reason that is given; no other token is.
/// Without one, a sequence ends exactly at its token limit.
pub proof fn law_every_stop_token_stops(sequence: Sequence, report: FinishReport, token: u32)
    requires
        sequence.wf(),
        sequence.generated() > 0,
        sequence.tokens@.last() == token,
        lifecycle::reports(report, sequence),
    ensures
        forall|i: int|
            0 <= i < sequence.eos_token_id@.len() && #[trigger] sequence.eos_token_id@[i] == token
                ==> turns::is_complete(sequence) && report.finish_reason == FinishReason::Stop,
        (forall|i: int|
            0 <= i < sequence.eos_token_id@.len() ==> #[trigger] sequence.eos_token_id@[i] != token)
            ==> {
            &&& report.finish_reason == FinishReason::Length
            &&& turns::is_complete(sequence) <==> sequence.tokens@.len() >= sequence.prompt_len
                + sequence.max_tokens
        },
        report.prompt_tokens + report.completion_tokens == sequence.tokens@.len(),
{
}

/// The sequence `id` has one token more, and stops where it stopped.
proof fn lemma_one_more(before: InferenceEngine, after: InferenceEngine, id: u64, token: u32, at: int)
    requires
        before.wf(),
        before.has(id),
        after.wf(),
        at == state::index_of(before.sequences@, id),
        0 <= at < after.sequences@.len(),
        after.sequences@[at].id == id,
        after.sequences@[at].tokens@ == before.sequences@[at].tokens@.push(token),
        after.sequences@[at].eos_token_id == before.sequences@[at].eos_token_id,
        after.sequences@[at].max_tokens == before.sequences@[at].max_tokens,
        after.sequences@[at].prompt_len == before.sequences@[at].prompt_len,
    ensures
        after.has(id),
        after.sequence(id) == after.sequences@[at],
        after.sequence(id).generated() > 0,
        after.sequence(id).wf(),
{
    assert(0 <= at < before.sequences@.len() && before.sequences@[at].id == id);
    assert(before.sequences@[at].wf());
    state::lemma_index(after.sequences@, at);
}

/// A prefill whose first token is a stop token completes the sequence, with that reason; with
/// another token the sequence runs on, unless its limit is reached.
pub proof fn law_prefill_stops(
    before: InferenceEngine,
    after: InferenceEngine,
    id: u64,
    prompt_len: usize,
    token: u32,
    timings: PrefillTimings,
    complete: bool,
    report: FinishReport,
)
    requires
        before.wf(),
        before.has(id),
        after.wf(),
        turns::prefilled(before, after, id, prompt_len, token, timings),
        complete == turns::is_complete(after.sequence(id)),
        lifecycle::reports(report, after.sequence(id)),
    ensures
        forall|i: int|
            0 <= i < before.sequence(id).eos_token_id@.len()
                && #[trigger] before.sequence(id).eos_token_id@[i] == token ==> complete
                && report.finish_reason == FinishReason::Stop,
        (forall|i: int|
            0 <= i < before.sequence(id).eos_token_id@.len()
                ==> #[trigger] before.sequence(id).eos_token_id@[i] != token) ==> {
            &&& report.finish_reason == FinishReason::Length
            &&& complete <==> before.sequence(id).tokens@.len() + 1 >= before.sequence(
                id,
            ).prompt_len + before.sequence(id).max_tokens
        },
{
    let at = state::index_of(before.sequences@, id);
    let counted = InferenceEngine {
        stats: turns::prefill_counted(before.stats, timings),
        ..before
    };
    let (fed, paged) = choose|fed: InferenceEngine, paged: InferenceEngine|
        {
            &&& turns::token_added(counted, fed, id, token, SequenceStatus::Running)
            &&& #[trigger] paged::synced(fed, paged, id, prompt_len)
            &&& after.sequences == paged.sequences
        };
    assert(before.sequences@[at].id == id);
    state::lemma_update_keeps_ids(before.sequences@, at, fed.sequences@[at]);
    assert(state::has_id(fed.sequences@, id));
    assert(state::index_of(fed.sequences@, id) == at);
    lemma_one_more(before, after, id, token, at);
    law_every_stop_token_stops(after.sequence(id), report, token);
}

/// The same of a token that is decoded for a sequence on its own.
pub proof fn law_decode_stops(
    before: InferenceEngine,
    after: InferenceEngine,
    id: u64,
    token: u32,
    complete: bool,
    report: FinishReport,
)
    requires
        before.wf(),
        before.has(id),
        after.wf(),
        turns::decoded(before, after, id, token),
        complete == turns::is_complete(after.sequence(id)),
        lifecycle::reports(report, after.sequence(id)),
    ensures
        forall|i: int|
            0 <= i < before.sequence(id).eos_token_id@.len()
                && #[trigger] before.sequence(id).eos_token_id@[i] == token ==> complete
                && report.finish_reason == FinishReason::Stop,
        (forall|i: int|
            0 <= i < before.sequence(id).eos_token_id@.len()
                ==> #[trigger] before.sequence(id).eos_token_id@[i] != token) ==> {
            &&& report.finish_reason == FinishReason::Length
            &&& complete <==> before.sequence(id).tokens@.len() + 1 >= before.sequence(
                id,
            ).prompt_len + before.sequence(id).max_tokens
        },
{
    let at = state::index_of(before.sequences@, id);
    let (fed, paged) = choose|fed: InferenceEngine, paged: InferenceEngine|
        {
            &&& turns::token_added(before, fed, id, token, before.sequence(id).status)
            &&& #[trigger] paged::synced(
                fed,
                paged,
                id,
                before.sequence(id).tokens@.len() as usize,
            )
            &&& after.sequences == paged.sequences
        };
    assert(before.sequences@[at].id == id);
    state::lemma_update_keeps_ids(before.sequences@, at, fed.sequences@[at]);
    assert(state::has_id(fed.sequences@, id));
    assert(state::index_of(fed.sequences@, id) == at);
    lemma_one_more(before, after, id, token, at);
    law_every_stop_token_stops(after.sequence(id), report, token);
}

/// Only rows that finish are added to those that finish.
proof fn lemma_finishing(
    step: BatchDecode,
    engine: InferenceEngine,
    outcomes: Seq<RowOutcome>,
    count: int,
    r: int,
)
    requires
        0 <= count <= step.batch@.len(),
        0 <= r < step.batch@.len(),
        step.batch@.no_duplicates(),
    ensures
        step.finishing(engine, outcomes, count).contains(step.batch@[r]) <==> r < count
            && step.finishes(engine, outcomes, r),
        step.leaving(engine, outcomes, count).contains(step.batch@[r]) <==> r < count
            && step.leaves(engine, outcomes, r),
    decreases count,
{
    if count > 0 {
        lemma_finishing(step, engine, outcomes, count - 1, r);
        let id = step.batch@[r];
        let last = step.batch@[count - 1];
        let head = step.finishing(engine, outcomes, count - 1);
        let all = step.finishing(engine, outcomes, count);
        if all.contains(id) && !head.contains(id) {
            let k = all.index_of(id);
            if k < head.len() {
                assert(head[k] == id);
            }
            assert(id == last);
        }
        if head.contains(id) {
            let k = head.index_of(id);
            assert(all[k] == id);
        }
        if r == count - 1 && step.finishes(engine, outcomes, r) {
            assert(all[head.len() as int] == id);
        }
        let head = step.leaving(engine, outcomes, count - 1);
        let all = step.leaving(engine, outcomes, count);
        if all.contains(id) && !head.contains(id) {
            let k = all.index_of(id);
            if k < head.len() {
                assert(head[k] == id);
            }
            assert(id == last);
        }
        if head.contains(id) {
            let k = head.index_of(id);
            assert(all[k] == id);
        }
        if r == count - 1 && step.leaves(engine, outcomes, r) {
            assert(all[head.len() as int] == id);
        }
    }
}

/// The same of a row of a batched round: a stop token, or the limit, ends it, and it is to be
/// finished; any other token lets it go on, unless its client is gone, and it is then to be
/// cancelled.
pub proof fn law_round_stops(
    before: InferenceEngine,
    after: InferenceEngine,
    first: BatchDecode,
    last: BatchDecode,
    outcomes: Seq<RowOutcome>,
    r: int,
    token: u32,
    closed: bool,
    report: FinishReport,
)
    requires
        decode::round_ready(before, first, outcomes),
        decode::round_ran(before, after, first, last, outcomes),
        0 <= r < first.batch@.len(),
        first.alive@[r],
        outcomes[r] == (RowOutcome::Token { token, closed }),
        lifecycle::reports(report, after.sequence(first.batch@[r])),
        !first.pending_finish@.contains(first.batch@[r]),
        !first.pending_cancel@.contains(first.batch@[r]),
    ensures
        ({
            let id = first.batch@[r];
            let sequence = before.sequence(id);
            let stop = exists|i: int|
                0 <= i < sequence.eos_token_id@.len() && #[trigger] sequence.eos_token_id@[i]
                    == token;
            let full = sequence.tokens@.len() + 1 >= sequence.prompt_len + sequence.max_tokens;
            &&& after.has(id)
            &&& after.sequence(id).tokens@ == sequence.tokens@.push(token)
            &&& report.finish_reason == FinishReason::Stop <==> stop
            &&& last.pending_finish@.contains(id) <==> stop || full
            &&& last.pending_cancel@.contains(id) <==> !stop && !full && closed
            &&& last.alive@[r] <==> !stop && !full && !closed
        }),
{
    let id = first.batch@[r];
    let n = first.batch@.len() as int;
    let at = state::index_of(before.sequences@, id);
    assert(first.took(outcomes, r));
    assert(decode::row_ready(before, first, r));
    assert(0 <= at < before.sequences@.len() && before.sequences@[at].id == id);
    assert(before.sequences@[at].wf());
    decode::law_round_adds_one_token(before.sequences@, after.sequences@, first, outcomes, r, at);
    assert(after.sequences@[at] == after.sequences@[at]);
    match first.token_for(outcomes, before.sequences@[at].id, outcomes.len() as int) {
        Some(given) => {},
        None => {},
    }
    lemma_one_more(before, after, id, token, at);
    law_every_stop_token_stops(after.sequence(id), report, token);
    lemma_finishing(first, before, outcomes, n, r);
    let finishing = first.finishing(before, outcomes, n);
    let leaving = first.leaving(before, outcomes, n);
    assert(last.pending_finish@.contains(id) <==> finishing.contains(id)) by {
        lemma_in_sum(first.pending_finish@, finishing, id);
    }
    assert(last.pending_cancel@.contains(id) <==> leaving.contains(id)) by {
        lemma_in_sum(first.pending_cancel@, leaving, id);
    }
    let sequence = before.sequence(id);
    if sequence.eos_token_id@.contains(token) {
        let i = sequence.eos_token_id@.index_of(token);
        assert(sequence.eos_token_id@[i] == token);
        assert(after.sequence(id).eos_token_id@[i] == token);
    }
}

proof fn lemma_in_sum(left: Seq<u64>, right: Seq<u64>, id: u64)
    ensures
        (left + right).contains(id) <==> left.contains(id) || right.contains(id),
{
    let all = left + right;
    if left.contains(id) {
        let k = left.index_of(id);
        assert(all[k] == id);
    }
    if right.contains(id) {
        let k = right.index_of(id);
        assert(all[left.len() + k] == id);
    }
    if all.contains(id) {
        let k = all.index_of(id);
        if k < left.len() {
            assert(left[k] == id);
        } else {
            assert(right[k - left.len()] == id);
        }
    }
}

} // verus!
