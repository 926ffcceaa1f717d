//! Prefill and sequential decode: one sequence at a time.
use super::paged;
use super::sequence::{Sequence, SequenceStatus};
use super::state::{self, InferenceEngine};
use crate::stats::EngineStats;
use vstd::prelude::*;

verus! {

/// What a forward pass is fed.
#[derive(Debug)]
pub struct StepInput {
    pub input_ids: Vec<u32>,
    pub start_pos: usize,
}

/// How long the parts of a prefill took, in microseconds.
#[derive(Debug, Clone, Copy, PartialEq, Eq, Structural)]
pub struct PrefillTimings {
    pub prefill_us: u64,
    pub queue_wait_us: u64,
    pub ttft_us: u64,
    pub forward_us: u64,
    pub sampling_us: u64,
    pub swap_us: u64,
}

/// How long the parts of a sequential decode step took, in microseconds.
#[derive(Debug, Clone, Copy, PartialEq, Eq, Structural)]
pub struct SequentialTimings {
    pub decode_us: u64,
    pub forward_us: u64,
    pub sampling_us: u64,
}

/// The sequence is complete.
pub open spec fn is_complete(sequence: Sequence) -> bool {
    sequence.at_eos() || sequence.generated() >= sequence.max_tokens
}

/// Statistics after a prefill.
pub open spec fn prefill_counted(stats: EngineStats, timings: PrefillTimings) -> EngineStats {
    EngineStats {
        total_prefill_time_us: stats.total_prefill_time_us.plus(timings.prefill_us as int),
        total_prefill_steps: stats.total_prefill_steps.plus(1),
        total_queue_wait_time_us: stats.total_queue_wait_time_us.plus(
            timings.queue_wait_us as int,
        ),
        total_time_to_first_token_us: stats.total_time_to_first_token_us.plus(
            timings.ttft_us as int,
        ),
        total_prefill_forward_time_us: stats.total_prefill_forward_time_us.plus(
            timings.forward_us as int,
        ),
        total_prefill_sampling_time_us: stats.total_prefill_sampling_time_us.plus(
            timings.sampling_us as int,
        ),
        total_prefill_swap_time_us: stats.total_prefill_swap_time_us.plus(timings.swap_us as int),
        ..stats
    }
}

/// Statistics after a sequential decode step of this many tokens.
pub open spec fn sequential_counted(
    stats: EngineStats,
    tokens: u64,
    timings: SequentialTimings,
) -> EngineStats {
    EngineStats {
        total_decode_time_us: stats.total_decode_time_us.plus(timings.decode_us as int),
        total_sequential_decode_calls: stats.total_sequential_decode_calls.plus(1),
        total_sequential_decode_tokens: stats.total_sequential_decode_tokens.plus(tokens as int),
        total_sequential_decode_time_us: stats.total_sequential_decode_time_us.plus(
            timings.decode_us as int,
        ),
        total_sequential_decode_forward_time_us: stats.total_sequential_decode_forward_time_us.plus(
            timings.forward_us as int,
        ),
        total_sequential_decode_sampling_time_us:
            stats.total_sequential_decode_sampling_time_us.plus(timings.sampling_us as int),
        ..stats
    }
}

/// The next forward pass of a sequence is fed this: all tokens before anything was generated,
/// then the last one.
pub open spec fn feeds(sequence: Sequence, input: StepInput) -> bool {
    let fresh = sequence.generated() == 0;
    &&& input.input_ids@ == if fresh {
        sequence.tokens@
    } else {
        sequence.tokens@.skip(sequence.tokens@.len() - 1)
    }
    &&& input.start_pos == if fresh {
        0
    } else {
        sequence.tokens@.len() - 1
    }
}

/// Statistics after a token was sampled for a single row.
pub open spec fn row_counted(stats: EngineStats, greedy: bool) -> EngineStats {
    if greedy {
        EngineStats {
            total_sampling_row_greedy_tokens: stats.total_sampling_row_greedy_tokens.plus(1),
            ..stats
        }
    } else {
        EngineStats {
            total_sampling_non_greedy_tokens: stats.total_sampling_non_greedy_tokens.plus(1),
            ..stats
        }
    }
}

/// Statistics after a token could not be sampled.
pub open spec fn failure_counted(stats: EngineStats) -> EngineStats {
    EngineStats { total_sampling_failures: stats.total_sampling_failures.plus(1), ..stats }
}

/// `after` is `sequence` with one more token.
pub open spec fn extended(before: Sequence, after: Sequence, token: u32, status: SequenceStatus) -> bool {
    &&& after.tokens@ == before.tokens@.push(token)
    &&& after == (Sequence { tokens: after.tokens, status, ..before })
}

/// `after` is `before` with `token` added to sequence `id`, which then has this status.
pub open spec fn token_added(
    before: InferenceEngine,
    after: InferenceEngine,
    id: u64,
    token: u32,
    status: SequenceStatus,
) -> bool {
    let at = state::index_of(before.sequences@, id);
    &&& extended(before.sequences@[at], after.sequences@[at], token, status)
    &&& after.sequences@ == before.sequences@.update(at, after.sequences@[at])
    &&& after == (InferenceEngine { sequences: after.sequences, ..before })
}

/// `after` is `before` with a prefill of sequence `id` completed: counted, the first token
/// added, pages for the prompt, and running unless it is complete already.
pub open spec fn prefilled(
    before: InferenceEngine,
    after: InferenceEngine,
    id: u64,
    prompt_len: usize,
    token: u32,
    timings: PrefillTimings,
) -> bool {
    exists|fed: InferenceEngine, paged: InferenceEngine|
        {
            &&& token_added(
                InferenceEngine { stats: prefill_counted(before.stats, timings), ..before },
                fed,
                id,
                token,
                SequenceStatus::Running,
            )
            &&& #[trigger] paged::synced(fed, paged, id, prompt_len)
            &&& if is_complete(paged.sequence(id)) {
                after == paged
            } else {
                &&& after.scheduler.running@ == before.scheduler.running@.push(id)
                &&& after.scheduler.waiting@ == before.scheduler.waiting@
                &&& after.scheduler.max_running == before.scheduler.max_running
                &&& after.scheduler.effective_max_running
                    == before.scheduler.effective_max_running
                &&& after == (InferenceEngine { scheduler: after.scheduler, ..paged })
            }
        }
}

/// `after` is `before` with one more token decoded for sequence `id`: added, and with pages for
/// all tokens but the last.
pub open spec fn decoded(
    before: InferenceEngine,
    after: InferenceEngine,
    id: u64,
    token: u32,
) -> bool {
    exists|fed: InferenceEngine, paged: InferenceEngine|
        {
            &&& token_added(before, fed, id, token, before.sequence(id).status)
            &&& #[trigger] paged::synced(
                fed,
                paged,
                id,
                before.sequence(id).tokens@.len() as usize,
            )
            &&& after == (InferenceEngine {
                stats: EngineStats {
                    total_decode_steps: paged.stats.total_decode_steps.plus(1),
                    ..paged.stats
                },
                ..paged
            })
        }
}

/// Adding a token to a sequence keeps the books in order.
pub proof fn lemma_fed_keeps_wf(
    before: InferenceEngine,
    after: InferenceEngine,
    id: u64,
    token: u32,
    status: SequenceStatus,
)
    requires
        before.wf(),
        before.has(id),
        token_added(before, after, id, token, status),
    ensures
        after.wf(),
        after.has(id),
        after.sequence(id) == after.sequences@[state::index_of(before.sequences@, id)],
        after.sequence(id).generated() == before.sequence(id).generated() + 1,
        forall|other: u64| #[trigger] after.has(other) <==> before.has(other),
        forall|other: u64|
            before.has(other) && other != id ==> #[trigger] after.sequence(other)
                == before.sequence(other),
{
    let at = state::index_of(before.sequences@, id);
    assert(before.sequences@[at].id == id);
    assert(before.sequences@[at].wf());
    let value = after.sequences@[at];
    assert(state::page_tables(before.sequences@).update(at, value.paged_kv)
        =~= state::page_tables(before.sequences@));
    state::lemma_touch_keeps_wf(before, after, at, value);
}

impl InferenceEngine {
    /// What the next forward pass of a sequence is fed: all tokens before anything was
    /// generated, then the last one.
    pub fn step_input(&self, id: u64) -> (result: Option<StepInput>)
        requires
            self.wf(),
        ensures
            match result {
                Some(input) => self.has(id) && feeds(self.sequence(id), input),
                None => !self.has(id),
            },
    {
        match self.find(id) {
            Some(i) => {
                assert(self.sequences@[i as int].wf());
                let sequence = &self.sequences[i];
                Some(
                    StepInput {
                        input_ids: vstd::slice::slice_to_vec(sequence.next_input_ids()),
                        start_pos: sequence.start_pos(),
                    },
                )
            },
            None => None,
        }
    }

    /// Counts a token that was sampled for a single row.
    pub fn record_row_sampled(&mut self, greedy: bool)
        ensures
            *final(self) == (InferenceEngine {
                stats: row_counted(old(self).stats, greedy),
                ..*old(self)
            }),
            old(self).wf() ==> final(self).wf(),
    {
        if greedy {
            self.stats.total_sampling_row_greedy_tokens.fetch_add(1);
        } else {
            self.stats.total_sampling_non_greedy_tokens.fetch_add(1);
        }
    }

    /// Counts a token that could not be sampled.
    pub fn record_sampling_failure(&mut self)
        ensures
            *final(self) == (InferenceEngine {
                stats: failure_counted(old(self).stats),
                ..*old(self)
            }),
            old(self).wf() ==> final(self).wf(),
    {
        self.stats.total_sampling_failures.fetch_add(1);
    }

    /// Completes a prefill with the first token. The result says whether the sequence is
    /// complete; if not, it runs.
    pub fn complete_prefill(
        &mut self,
        id: u64,
        prompt_len: usize,
        token: u32,
        timings: PrefillTimings,
    ) -> (result: bool)
        requires
            old(self).wf(),
            old(self).has(id),
            !old(self).scheduler.holds(id),
            old(self).paged_kv_allocator.spare(prompt_len as int),
        ensures
            final(self).wf(),
            prefilled(*old(self), *final(self), id, prompt_len, token, timings),
            final(self).has(id),
            result == is_complete(final(self).sequence(id)),
            result <==> !final(self).scheduler.running@.contains(id),
    {
        let ghost before = *self;
        self.stats.total_prefill_time_us.fetch_add(timings.prefill_us);
        self.stats.total_prefill_steps.fetch_add(1);
        self.stats.total_queue_wait_time_us.fetch_add(timings.queue_wait_us);
        self.stats.total_time_to_first_token_us.fetch_add(timings.ttft_us);
        self.stats.total_prefill_forward_time_us.fetch_add(timings.forward_us);
        self.stats.total_prefill_sampling_time_us.fetch_add(timings.sampling_us);
        self.stats.total_prefill_swap_time_us.fetch_add(timings.swap_us);
        let ghost counted = *self;
        let ghost at = state::index_of(before.sequences@, id);
        match self.find(id) {
            Some(i) => {
                let seq: &mut Sequence = &mut self.sequences[i];
                seq.tokens.push(token);
                seq.status = SequenceStatus::Running;
            },
            None => {
                assert(false);
            },
        }
        let ghost fed = *self;
        proof {
            assert(fed.sequences@ =~= counted.sequences@.update(at, fed.sequences@[at]));
            lemma_fed_keeps_wf(counted, fed, id, token, SequenceStatus::Running);
        }
        self.sync_paged_kv_for_sequence(id, prompt_len);
        let ghost paged = *self;
        assert(paged::synced(fed, paged, id, prompt_len));
        proof {
            state::lemma_update_keeps_ids(fed.sequences@, at, paged.sequences@[at]);
            assert(state::has_id(paged.sequences@, id));
            assert(state::index_of(paged.sequences@, id) == at);
        }
        let complete = match self.find(id) {
            Some(i) => {
                assert(self.sequences@[i as int].wf());
                self.sequences[i].should_stop()
            },
            None => true,
        };
        if !complete {
            self.scheduler.promote_to_running(id);
            proof {
                let value = paged.sequences@[at];
                assert(self.sequences@ =~= paged.sequences@.update(at, value));
                assert(state::page_tables(paged.sequences@).update(at, value.paged_kv)
                    =~= state::page_tables(paged.sequences@));
                assert forall|other: u64| #[trigger] self.scheduler.holds(
                    other,
                ) implies paged.has(other) by {
                    if self.scheduler.running@.contains(other) {
                        let k = self.scheduler.running@.index_of(other);
                        if k < before.scheduler.running@.len() {
                            assert(before.scheduler.running@[k] == other);
                            assert(before.scheduler.running@.contains(other));
                            assert(paged.scheduler.holds(other));
                        }
                    } else {
                        assert(paged.scheduler.holds(other));
                    }
                }
                assert forall|other: u64| #[trigger] self.scheduler.running@.contains(
                    other,
                ) implies other == id || paged.scheduler.running@.contains(other) by {
                    let k = self.scheduler.running@.index_of(other);
                    if k < before.scheduler.running@.len() {
                        assert(before.scheduler.running@[k] == other);
                    }
                }
                assert(paged.sequence(id).generated() >= 1) by {
                    assert(fed.sequence(id).generated() >= 1);
                    assert(before.sequences@[at].wf());
                }
                state::lemma_touch_keeps_wf(paged, *self, at, value);
                assert(self.scheduler.running@[before.scheduler.running@.len() as int] == id);
                assert(self.scheduler.running@.contains(id));
            }
        } else {
            assert(!before.scheduler.running@.contains(id));
        }
        complete
    }

    /// Adds a token that was decoded for a sequence on its own. The result says whether the
    /// sequence is complete.
    pub fn complete_decode(&mut self, id: u64, token: u32) -> (result: bool)
        requires
            old(self).wf(),
            old(self).has(id),
            old(self).paged_kv_allocator.spare(old(self).sequence(id).tokens@.len() as int),
        ensures
            final(self).wf(),
            decoded(*old(self), *final(self), id, token),
            final(self).has(id),
            result == is_complete(final(self).sequence(id)),
    {
        let ghost before = *self;
        let ghost at = state::index_of(before.sequences@, id);
        let mut kv_len: usize = 0;
        match self.find(id) {
            Some(i) => {
                kv_len = self.sequences[i].tokens.len();
                let seq: &mut Sequence = &mut self.sequences[i];
                seq.tokens.push(token);
            },
            None => {
                assert(false);
            },
        }
        let ghost fed = *self;
        proof {
            assert(fed.sequences@ =~= before.sequences@.update(at, fed.sequences@[at]));
            lemma_fed_keeps_wf(before, fed, id, token, before.sequence(id).status);
        }
        self.sync_paged_kv_for_sequence(id, kv_len);
        let ghost paged = *self;
        assert(paged::synced(
            fed,
            paged,
            id,
            before.sequence(id).tokens@.len() as usize,
        ));
        self.stats.total_decode_steps.fetch_add(1);
        proof {
            state::lemma_update_keeps_ids(fed.sequences@, at, paged.sequences@[at]);
            assert(state::has_id(self.sequences@, id));
        }
        match self.find(id) {
            Some(i) => {
                assert(self.sequences@[i as int].wf());
                self.sequences[i].should_stop()
            },
            None => true,
        }
    }

    /// Counts a sequential decode step.
    pub fn record_sequential_decode(&mut self, tokens: u64, timings: SequentialTimings)
        ensures
            *final(self) == (InferenceEngine {
                stats: sequential_counted(old(self).stats, tokens, timings),
                ..*old(self)
            }),
            old(self).wf() ==> final(self).wf(),
    {
        self.stats.total_decode_time_us.fetch_add(timings.decode_us);
        self.stats.total_sequential_decode_calls.fetch_add(1);
        self.stats.total_sequential_decode_tokens.fetch_add(tokens);
        self.stats.total_sequential_decode_time_us.fetch_add(timings.decode_us);
        self.stats.total_sequential_decode_forward_time_us.fetch_add(timings.forward_us);
        self.stats.total_sequential_decode_sampling_time_us.fetch_add(timings.sampling_us);
    }
}

/// A prefilled sequence has its prompt and one token, and pages for exactly the prompt.
pub proof fn law_prefill_covers_the_prompt(
    before: InferenceEngine,
    after: InferenceEngine,
    id: u64,
    prompt_len: usize,
    token: u32,
    timings: PrefillTimings,
)
    requires
        before.wf(),
        before.has(id),
        prefilled(before, after, id, prompt_len, token, timings),
    ensures
        ({
            let at = state::index_of(before.sequences@, id);
            &&& after.sequences@[at].tokens@ == before.sequence(id).tokens@.push(token)
            &&& after.sequences@[at].paged_kv.token_len == prompt_len
        }),
{
    let at = state::index_of(before.sequences@, id);
    let counted = InferenceEngine { stats: prefill_counted(before.stats, timings), ..before };
    let (fed, paged) = choose|fed: InferenceEngine, paged: InferenceEngine|
        {
            &&& token_added(counted, fed, id, token, SequenceStatus::Running)
            &&& #[trigger] paged::synced(fed, paged, id, prompt_len)
            &&& after.sequences == paged.sequences
        };
    assert(before.sequences@[at].id == id);
    state::lemma_update_keeps_ids(before.sequences@, at, fed.sequences@[at]);
    assert(state::has_id(fed.sequences@, id));
    assert(state::index_of(fed.sequences@, id) == at);
}

/// A forward pass continues a sequence where the one before it ended: up to its position the
/// sequence was fed before, and what it is fed now is all the rest. The first pass begins at the
/// beginning, and each later one is fed the one token that came last.
pub proof fn law_pass_continues(sequence: Sequence, input: StepInput)
    requires
        sequence.wf(),
        feeds(sequence, input),
    ensures
        sequence.tokens@.take(input.start_pos as int) + input.input_ids@ == sequence.tokens@,
        sequence.tokens@.len() == sequence.prompt_len ==> input.start_pos == 0,
        sequence.tokens@.len() > sequence.prompt_len ==> input.input_ids@
            == seq![sequence.tokens@.last()],
{
    assert(sequence.tokens@.take(input.start_pos as int) + input.input_ids@ =~= sequence.tokens@);
    if sequence.tokens@.len() > sequence.prompt_len {
        assert(input.input_ids@ =~= seq![sequence.tokens@.last()]);
    }
}

} // verus!
