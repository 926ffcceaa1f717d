//! Requests come, end, fail and are cleaned up after.
use super::paged;
use super::scheduler;
use super::sequence::{self, FinishReason, Sequence, SequenceStatus};
use super::state::{self, InferenceEngine};
use crate::clock;
use crate::memory;
use crate::paged_kv::ownership;
use crate::paged_kv::PagedKvSequence;
use crate::stats::{Counter, EngineStats};
use crate::tensors;
use crate::text;
use crate::vocabulary;
use std::time::SystemTime;
use tokenizers::Tokenizer;
use vstd::prelude::*;
use vstd::string::*;

verus! {

/// A request as it reaches the engine. Sampling parameters are bit patterns, as in [`Sequence`].
pub struct EngineRequest {
    pub id: u64,
    pub request_id: String,
    pub tokens: Vec<u32>,
    pub max_tokens: usize,
    pub temperature: Option<u64>,
    pub top_p: Option<u64>,
    pub top_k: Option<usize>,
    pub repetition_penalty: u32,
    pub eos_token_id: Vec<u32>,
}

/// A prompt that is longer than any sequence may get.
#[derive(Debug, Clone, Copy, PartialEq, Eq, Structural)]
pub struct PromptTooLong {
    pub prompt_len: usize,
    pub max_seq_len: usize,
}

/// How a sequence ended.
#[derive(Debug)]
pub struct FinishReport {
    pub prompt_tokens: usize,
    pub completion_tokens: usize,
    pub finish_reason: FinishReason,
    /// The text of all generated tokens, where the decoder takes any tokens.
    pub full_text: Option<String>,
}

/// The report has the numbers of this sequence and the reason why it ended.
pub open spec fn reports(report: FinishReport, sequence: Sequence) -> bool {
    &&& report.prompt_tokens == sequence.prompt_len
    &&& report.completion_tokens == sequence.generated()
    &&& report.finish_reason == if sequence.at_eos() {
        FinishReason::Stop
    } else {
        FinishReason::Length
    }
}

/// Tokens that a repetition penalty looks back on.
pub const REPEAT_LAST_N: usize = 64;

impl PromptTooLong {
    /// What the client is told.
    pub open spec fn text(&self) -> Seq<char> {
        "Prompt length ("@ + text::decimal(self.prompt_len as nat)
            + ") exceeds server max_seq_len ("@ + text::decimal(self.max_seq_len as nat) + ")"@
    }

    pub fn message(&self) -> (result: String)
        ensures
            result@ == self.text(),
    {
        let mut out = String::from_str("Prompt length (");
        text::push_decimal(&mut out, self.prompt_len as u64);
        out.append(") exceeds server max_seq_len (");
        text::push_decimal(&mut out, self.max_seq_len as u64);
        out.append(")");
        out
    }
}

impl FinishReason {
    /// The name of the reason in responses.
    pub open spec fn name(&self) -> Seq<char> {
        match self {
            FinishReason::Stop => "stop"@,
            FinishReason::Length => "length"@,
        }
    }

    pub fn as_str(&self) -> (result: &'static str)
        ensures
            result@ == self.name(),
    {
        match self {
            FinishReason::Stop => "stop",
            FinishReason::Length => "length",
        }
    }
}

/// `sequence` is what an accepted request starts as.
pub open spec fn starts_as(
    engine: InferenceEngine,
    request: EngineRequest,
    seed: u64,
    sequence: Sequence,
) -> bool {
    let table = sequence.paged_kv;
    &&& table.wf()
    &&& table.block_size == engine.paged_kv_allocator.block_size
    &&& table.token_len == 0
    &&& table.blocks@.len() == 0
    &&& sequence.kv_caches@ == sequence::no_caches(engine.settings.num_layers as int)
    &&& sequence == (Sequence {
        id: request.id,
        request_id: request.request_id,
        status: SequenceStatus::Waiting,
        tokens: request.tokens,
        prompt_len: request.tokens@.len() as usize,
        kv_caches: sequence.kv_caches,
        paged_kv: table,
        sampling_seed: seed,
        temperature: request.temperature,
        top_p: request.top_p,
        top_k: request.top_k,
        max_tokens: engine.memory_config.allowed_tokens(
            request.tokens@.len() as int,
            request.max_tokens as int,
        ) as usize,
        eos_token_id: request.eos_token_id,
        repetition_penalty: request.repetition_penalty,
        repeat_last_n: REPEAT_LAST_N,
    })
}

/// `after` is `before` with the request queued.
pub open spec fn accepted(
    before: InferenceEngine,
    after: InferenceEngine,
    request: EngineRequest,
    seed: u64,
) -> bool {
    &&& after.sequences@.len() == before.sequences@.len() + 1
    &&& after.sequences@.drop_last() == before.sequences@
    &&& starts_as(before, request, seed, after.sequences@.last())
    &&& after.scheduler.waiting@ == before.scheduler.waiting@.push(request.id)
    &&& after.scheduler.running@ == before.scheduler.running@
    &&& after.scheduler.max_running == before.scheduler.max_running
    &&& after.scheduler.effective_max_running == before.scheduler.effective_max_running
    &&& after == (InferenceEngine {
        sequences: after.sequences,
        scheduler: after.scheduler,
        stats: EngineStats {
            total_requests: before.stats.total_requests.plus(1),
            total_prompt_tokens: before.stats.total_prompt_tokens.plus(
                request.tokens@.len() as int,
            ),
            ..before.stats
        },
        ..before
    })
}

/// A lower limit on running sequences after one of them is gone: lifted when nothing waits or
/// when it reaches the ordinary limit, else raised by one.
pub open spec fn relaxed(cap: Option<usize>, nothing_waits: bool, max_running: usize) -> Option<
    usize,
> {
    match cap {
        None => None,
        Some(cap) => if nothing_waits || cap + 1 >= max_running || cap == usize::MAX {
            None
        } else {
            Some((cap + 1) as usize)
        },
    }
}

/// KV bytes that sequence `id` frees.
pub open spec fn freed_bytes(engine: InferenceEngine, id: u64, active_bytes: u64) -> int {
    if engine.active == Some(id) {
        active_bytes as int
    } else if engine.has(id) {
        let held = engine.sequence(id).kv_caches@;
        tensors::capped(tensors::caches_bytes(held, held.len() as int))
    } else {
        0
    }
}

/// `engine` with `freed` bytes less to track.
pub open spec fn untracked(engine: InferenceEngine, freed: int) -> InferenceEngine {
    let left = memory::less(engine.tracked_kv_bytes as int, freed) as u64;
    InferenceEngine {
        tracked_kv_bytes: left,
        stats: EngineStats { tracked_kv_cache_bytes: Counter { value: left }, ..engine.stats },
        ..engine
    }
}

/// `sequences` without the one with this id.
pub open spec fn without_id(sequences: Seq<Sequence>, id: u64) -> Seq<Sequence> {
    if state::has_id(sequences, id) {
        sequences.remove(state::index_of(sequences, id))
    } else {
        sequences
    }
}

/// `after` is `before` without sequence `id`: its bytes are not tracked, its pages are back, it
/// is in no queue, and a lower limit on running sequences is relaxed.
pub open spec fn cleaned(
    before: InferenceEngine,
    after: InferenceEngine,
    id: u64,
    active_bytes: u64,
) -> bool {
    exists|emptied: InferenceEngine|
        {
            &&& #[trigger] paged::released(
                untracked(before, freed_bytes(before, id, active_bytes)),
                emptied,
                id,
            )
            &&& after.sequences@ == without_id(emptied.sequences@, id)
            &&& after.scheduler.waiting@ == scheduler::without(before.scheduler.waiting@, id)
            &&& after.scheduler.running@ == scheduler::without(before.scheduler.running@, id)
            &&& after.scheduler.max_running == before.scheduler.max_running
            &&& after.scheduler.effective_max_running == relaxed(
                before.scheduler.effective_max_running,
                after.scheduler.waiting@.len() == 0,
                before.scheduler.max_running,
            )
            &&& after == (InferenceEngine {
                sequences: after.sequences,
                scheduler: after.scheduler,
                active: if before.active == Some(id) {
                    None
                } else {
                    before.active
                },
                ..emptied
            })
        }
}

/// Dropping a sequence that owns no page and is nowhere queued keeps the books in order.
proof fn lemma_drop_keeps_wf(before: InferenceEngine, after: InferenceEngine, id: u64)
    requires
        before.wf(),
        before.has(id) ==> before.sequence(id).paged_kv.blocks@.len() == 0,
        after.sequences@ == without_id(before.sequences@, id),
        after.scheduler.wf(),
        forall|other: u64| #[trigger]
            after.scheduler.holds(other) ==> before.scheduler.holds(other) && other != id,
        forall|other: u64| #[trigger]
            after.scheduler.running@.contains(other) ==> before.scheduler.running@.contains(other),
        after.active == if before.active == Some(id) {
            None
        } else {
            before.active
        },
        after.paged_kv_allocator == before.paged_kv_allocator,
        after.graphs == before.graphs,
        after.paged_kv_gpu_store == before.paged_kv_gpu_store,
        after.pending_batched_kv_extract == before.pending_batched_kv_extract,
        after.settings == before.settings,
    ensures
        after.wf(),
        !after.has(id),
        forall|other: u64| #[trigger] after.has(other) <==> before.has(other) && other != id,
        forall|other: u64|
            before.has(other) && other != id ==> #[trigger] after.sequence(other)
                == before.sequence(other),
{
    if before.has(id) {
        let list = before.sequences@;
        let rest = after.sequences@;
        let at = state::index_of(list, id);
        let place = |i: int|
            if i < at {
                i
            } else {
                i + 1
            };
        assert(list[at].id == id);
        assert forall|i: int, j: int| 0 <= i < j < rest.len() implies (#[trigger] rest[i]).id != (
        #[trigger] rest[j]).id by {
            assert(rest[i] == list[place(i)] && rest[j] == list[place(j)]);
        }
        assert forall|i: int| 0 <= i < rest.len() implies (#[trigger] rest[i]).wf() by {
            assert(rest[i] == list[place(i)]);
        }
        assert forall|other: u64| #[trigger] after.has(other) <==> before.has(other) && other
            != id by {
            if after.has(other) {
                let k = state::index_of(rest, other);
                assert(rest[k] == list[place(k)]);
                assert(place(k) != at);
                assert(list[place(k)].id != list[at].id);
            }
            if before.has(other) && other != id {
                let k = state::index_of(list, other);
                assert(list[k].id == other);
                let m = if k < at {
                    k
                } else {
                    k - 1
                };
                assert(rest[m] == list[k]);
            }
        }
        assert forall|other: u64| before.has(other) && other != id implies #[trigger] after.sequence(
            other,
        ) == before.sequence(other) by {
            let k = state::index_of(list, other);
            assert(list[k].id == other);
            let m = if k < at {
                k
            } else {
                k - 1
            };
            assert(rest[m] == list[k]);
            state::lemma_index(rest, m);
        }
        assert(state::page_tables(rest) =~= state::page_tables(list).remove(at));
        ownership::law_empty_sequence_can_go(
            before.paged_kv_allocator,
            state::page_tables(list),
            at,
        );
    }
    assert forall|other: u64| #[trigger] after.scheduler.running@.contains(
        other,
    ) implies after.sequence(other).generated() >= 1 by {
        assert(after.scheduler.holds(other));
        assert(before.sequence(other).generated() >= 1);
        assert(before.has(other));
    }
}

impl InferenceEngine {
    /// Accepts a request under this sampling seed, or refuses a prompt that is too long.
    pub fn accept_with_seed(&mut self, request: EngineRequest, seed: u64) -> (result: Result<
        (),
        PromptTooLong,
    >)
        requires
            old(self).wf(),
            !old(self).has(request.id),
        ensures
            final(self).wf(),
            match result {
                Ok(_) => {
                    &&& !old(self).memory_config.rejects(request.tokens@.len() as int)
                    &&& accepted(*old(self), *final(self), request, seed)
                },
                Err(error) => {
                    &&& old(self).memory_config.rejects(request.tokens@.len() as int)
                    &&& error.prompt_len == request.tokens@.len()
                    &&& error.max_seq_len == old(self).memory_config.max_seq_len
                    &&& *final(self) == (InferenceEngine {
                        stats: EngineStats {
                            failed_requests: old(self).stats.failed_requests.plus(1),
                            ..old(self).stats
                        },
                        ..*old(self)
                    })
                },
            },
    {
        let ghost before = *self;
        let prompt_len: usize = request.tokens.len();
        if self.memory_config.max_seq_len > 0 && prompt_len > self.memory_config.max_seq_len {
            self.stats.failed_requests.fetch_add(1);
            return Err(
                PromptTooLong { prompt_len, max_seq_len: self.memory_config.max_seq_len },
            );
        }
        let max_tokens: usize = self.memory_config.effective_max_tokens(
            prompt_len,
            request.max_tokens,
        );
        self.stats.total_requests.fetch_add(1);
        self.stats.total_prompt_tokens.fetch_add(prompt_len as u64);
        let id: u64 = request.id;
        let sequence = Sequence {
            id,
            request_id: request.request_id,
            status: SequenceStatus::Waiting,
            tokens: request.tokens,
            prompt_len,
            kv_caches: sequence::empty_caches(self.settings.num_layers),
            paged_kv: PagedKvSequence::new(self.paged_kv_allocator.block_size()),
            sampling_seed: seed,
            temperature: request.temperature,
            top_p: request.top_p,
            top_k: request.top_k,
            max_tokens,
            eos_token_id: request.eos_token_id,
            repetition_penalty: request.repetition_penalty,
            repeat_last_n: REPEAT_LAST_N,
        };
        let ghost fresh = sequence;
        self.sequences.push(sequence);
        self.scheduler.add(id);
        proof {
            assert(self.sequences@.drop_last() =~= before.sequences@);
            assert(!before.scheduler.holds(id)) by {
                if before.scheduler.holds(id) {
                    assert(before.has(id));
                }
            }
            lemma_push_keeps_wf(before, *self, fresh);
        }
        Ok(())
    }

    /// Accepts a request, with a seed from the clock.
    pub fn accept_request(&mut self, request: EngineRequest) -> (result: Result<(), PromptTooLong>)
        requires
            old(self).wf(),
            !old(self).has(request.id),
        ensures
            final(self).wf(),
            match result {
                Ok(_) => {
                    &&& !old(self).memory_config.rejects(request.tokens@.len() as int)
                    &&& exists|time: SystemTime| #[trigger]
                        clock::clock_read(time) && accepted(
                            *old(self),
                            *final(self),
                            request,
                            clock::seed_of(clock::from_epoch(time)),
                        )
                },
                Err(error) => {
                    &&& old(self).memory_config.rejects(request.tokens@.len() as int)
                    &&& error.prompt_len == request.tokens@.len()
                    &&& error.max_seq_len == old(self).memory_config.max_seq_len
                    &&& *final(self) == (InferenceEngine {
                        stats: EngineStats {
                            failed_requests: old(self).stats.failed_requests.plus(1),
                            ..old(self).stats
                        },
                        ..*old(self)
                    })
                },
            },
    {
        let seed: u64 = clock::rand_seed();
        self.accept_with_seed(request, seed)
    }

    /// Removes a sequence and everything that was kept for it. The result are pages that have
    /// to be set to zero on the device.
    pub fn cleanup_sequence(&mut self, id: u64, active_bytes: u64) -> (result: Vec<u32>)
        requires
            old(self).wf(),
        ensures
            final(self).wf(),
            cleaned(*old(self), *final(self), id, active_bytes),
            !final(self).has(id),
            !final(self).scheduler.holds(id),
            final(self).active != Some(id),
            forall|other: u64| #[trigger]
                final(self).has(other) <==> old(self).has(other) && other != id,
            result@ == if old(self).has(id) {
                paged::pages_to_zero(*old(self), id)
            } else {
                Seq::empty()
            },
    {
        let ghost before = *self;
        let is_active = match self.active {
            Some(active) => active == id,
            None => false,
        };
        let freed: u64 = if is_active {
            active_bytes
        } else {
            match self.find(id) {
                Some(i) => tensors::kv_cache_bytes(self.sequences[i].kv_caches.as_slice()),
                None => 0,
            }
        };
        self.tracked_kv_bytes = self.tracked_kv_bytes.saturating_sub(freed);
        self.stats.tracked_kv_cache_bytes.store(self.tracked_kv_bytes);
        let ghost trimmed = *self;
        assert(trimmed == untracked(before, freed_bytes(before, id, active_bytes)));
        let zero = self.release_paged_kv_for_sequence(id);
        let ghost emptied = *self;
        assert(paged::released(
            untracked(before, freed_bytes(before, id, active_bytes)),
            emptied,
            id,
        ));
        proof {
            if before.has(id) {
                let at = state::index_of(before.sequences@, id);
                assert(emptied.sequences@[at].id == id);
                state::lemma_index(emptied.sequences@, at);
            } else {
                assert(emptied == trimmed);
            }
        }
        match self.find(id) {
            Some(i) => {
                self.sequences.remove(i);
            },
            None => {},
        }
        self.scheduler.remove(id);
        if is_active {
            self.active = None;
        }
        if self.scheduler.effective_max_running.is_some() && self.scheduler.waiting.len() == 0 {
            self.scheduler.effective_max_running = None;
        } else {
            match self.scheduler.effective_max_running {
                Some(cap) => {
                    let next: usize = cap.saturating_add(1);
                    if next >= self.scheduler.max_running {
                        self.scheduler.effective_max_running = None;
                    } else {
                        self.scheduler.effective_max_running = Some(next);
                    }
                },
                None => {},
            }
        }
        proof {
            scheduler::lemma_without(before.scheduler.waiting@, id);
            scheduler::lemma_without(before.scheduler.running@, id);
            assert(self.sequences@ == without_id(emptied.sequences@, id));
            assert forall|other: u64| #[trigger] self.scheduler.holds(
                other,
            ) implies emptied.scheduler.holds(other) && other != id by {
                assert(scheduler::without(before.scheduler.waiting@, id).contains(other)
                    ==> before.scheduler.waiting@.contains(other) && other != id);
                assert(scheduler::without(before.scheduler.running@, id).contains(other)
                    ==> before.scheduler.running@.contains(other) && other != id);
            }
            assert forall|other: u64| #[trigger] self.scheduler.running@.contains(
                other,
            ) implies emptied.scheduler.running@.contains(other) by {
                assert(scheduler::without(before.scheduler.running@, id).contains(other));
            }
            lemma_drop_keeps_wf(emptied, *self, id);
            assert forall|other: u64| #[trigger] self.has(other) <==> before.has(other) && other
                != id by {
                assert(emptied.has(other) <==> before.has(other)) by {
                    if before.has(id) {
                        let at = state::index_of(before.sequences@, id);
                        state::lemma_update_keeps_ids(
                            before.sequences@,
                            at,
                            emptied.sequences@[at],
                        );
                        assert(state::has_id(emptied.sequences@, other) <==> state::has_id(
                            before.sequences@,
                            other,
                        ));
                    }
                }
            }
        }
        zero
    }

    /// Ends a sequence with an error: it is counted as failed and cleaned up.
    pub fn fail_sequence(&mut self, id: u64, active_bytes: u64) -> (result: Vec<u32>)
        requires
            old(self).wf(),
        ensures
            final(self).wf(),
            cleaned(
                InferenceEngine {
                    stats: EngineStats {
                        failed_requests: old(self).stats.failed_requests.plus(1),
                        ..old(self).stats
                    },
                    ..*old(self)
                },
                *final(self),
                id,
                active_bytes,
            ),
            !final(self).has(id),
            forall|other: u64| #[trigger]
                final(self).has(other) <==> old(self).has(other) && other != id,
            result@ == if old(self).has(id) {
                paged::pages_to_zero(*old(self), id)
            } else {
                Seq::empty()
            },
    {
        self.stats.failed_requests.fetch_add(1);
        self.cleanup_sequence(id, active_bytes)
    }

    /// Ends a sequence whose client is gone.
    pub fn cancel_sequence(&mut self, id: u64, active_bytes: u64) -> (result: Vec<u32>)
        requires
            old(self).wf(),
        ensures
            final(self).wf(),
            cleaned(
                InferenceEngine {
                    stats: EngineStats {
                        cancelled_requests: old(self).stats.cancelled_requests.plus(1),
                        ..old(self).stats
                    },
                    ..*old(self)
                },
                *final(self),
                id,
                active_bytes,
            ),
            !final(self).has(id),
            forall|other: u64| #[trigger]
                final(self).has(other) <==> old(self).has(other) && other != id,
            result@ == if old(self).has(id) {
                paged::pages_to_zero(*old(self), id)
            } else {
                Seq::empty()
            },
    {
        self.stats.cancelled_requests.fetch_add(1);
        self.cleanup_sequence(id, active_bytes)
    }

    /// What the client of sequence `id` is told at the end.
    pub fn finish_report(&self, id: u64, tokenizer: &Tokenizer) -> (result: Option<FinishReport>)
        requires
            self.wf(),
        ensures
            match result {
                Some(report) => {
                    &&& self.has(id)
                    &&& reports(report, self.sequence(id))
                    &&& match report.full_text {
                        Some(text) => vocabulary::decoder_of(*tokenizer).takes_any_tokens() && text@
                            == vocabulary::decoded(
                            *tokenizer,
                            self.sequence(id).tokens@.skip(self.sequence(id).prompt_len as int),
                            true,
                        ),
                        None => !vocabulary::decoder_of(*tokenizer).takes_any_tokens(),
                    }
                },
                None => !self.has(id),
            },
    {
        match self.generated_tokens(id) {
            None => None,
            Some(generated) => {
                let text = vocabulary::text_of(tokenizer, generated.as_slice());
                self.report_with(id, text)
            },
        }
    }

    /// The tokens that were generated for sequence `id`.
    pub fn generated_tokens(&self, id: u64) -> (result: Option<Vec<u32>>)
        requires
            self.wf(),
        ensures
            match result {
                Some(generated) => self.has(id) && generated@ == self.sequence(id).tokens@.skip(
                    self.sequence(id).prompt_len as int,
                ),
                None => !self.has(id),
            },
    {
        match self.find(id) {
            None => None,
            Some(i) => {
                assert(self.sequences@[i as int].wf());
                let seq = &self.sequences[i];
                let n: usize = seq.tokens.len();
                let tail = vstd::slice::slice_subrange(seq.tokens.as_slice(), seq.prompt_len, n);
                let generated = vstd::slice::slice_to_vec(tail);
                assert(generated@ =~= seq.tokens@.skip(seq.prompt_len as int));
                Some(generated)
            },
        }
    }

    /// What the client of sequence `id` is told at the end, with the text of its tokens.
    pub fn report_with(&self, id: u64, full_text: Option<String>) -> (result: Option<FinishReport>)
        requires
            self.wf(),
        ensures
            match result {
                Some(report) => {
                    &&& self.has(id)
                    &&& reports(report, self.sequence(id))
                    &&& report.full_text == full_text
                },
                None => !self.has(id),
            },
    {
        match self.find(id) {
            None => None,
            Some(i) => {
                assert(self.sequences@[i as int].wf());
                let seq = &self.sequences[i];
                Some(
                    FinishReport {
                        prompt_tokens: seq.prompt_len,
                        completion_tokens: seq.num_generated(),
                        finish_reason: seq.finish_reason(),
                        full_text,
                    },
                )
            },
        }
    }

    /// Ends a sequence that is complete.
    pub fn finish_sequence(&mut self, id: u64, active_bytes: u64) -> (result: Vec<u32>)
        requires
            old(self).wf(),
        ensures
            final(self).wf(),
            cleaned(
                InferenceEngine {
                    stats: finished(*old(self), id),
                    ..*old(self)
                },
                *final(self),
                id,
                active_bytes,
            ),
            !final(self).has(id),
            forall|other: u64| #[trigger]
                final(self).has(other) <==> old(self).has(other) && other != id,
            result@ == if old(self).has(id) {
                paged::pages_to_zero(*old(self), id)
            } else {
                Seq::empty()
            },
    {
        match self.find(id) {
            Some(i) => {
                assert(self.sequences@[i as int].wf());
                let tokens: u64 = self.sequences[i].num_generated() as u64;
                self.stats.total_completion_tokens.fetch_add(tokens);
                self.stats.completed_requests.fetch_add(1);
            },
            None => {},
        }
        self.cleanup_sequence(id, active_bytes)
    }
}

/// Statistics after sequence `id` is complete.
pub open spec fn finished(engine: InferenceEngine, id: u64) -> EngineStats {
    if engine.has(id) {
        EngineStats {
            total_completion_tokens: engine.stats.total_completion_tokens.plus(
                engine.sequence(id).generated(),
            ),
            completed_requests: engine.stats.completed_requests.plus(1),
            ..engine.stats
        }
    } else {
        engine.stats
    }
}

proof fn lemma_push_keeps_wf(before: InferenceEngine, after: InferenceEngine, fresh: Sequence)
    requires
        before.wf(),
        !before.has(fresh.id),
        fresh.wf(),
        fresh.paged_kv.block_size == before.paged_kv_allocator.block_size,
        fresh.paged_kv.blocks@.len() == 0,
        after.sequences@ == before.sequences@.push(fresh),
        after.scheduler.wf(),
        after.scheduler.waiting@ == before.scheduler.waiting@.push(fresh.id),
        after.scheduler.running@ == before.scheduler.running@,
        after.active == before.active,
        after.paged_kv_allocator == before.paged_kv_allocator,
        after.graphs == before.graphs,
        after.paged_kv_gpu_store == before.paged_kv_gpu_store,
        after.pending_batched_kv_extract == before.pending_batched_kv_extract,
        after.settings == before.settings,
    ensures
        after.wf(),
{
    let list = before.sequences@;
    let all = after.sequences@;
    let n = list.len() as int;
    assert(all[n] == fresh);
    assert forall|i: int, j: int| 0 <= i < j < all.len() implies (#[trigger] all[i]).id != (
    #[trigger] all[j]).id by {
        assert(all[i] == list[i]);
        if j < n {
            assert(all[j] == list[j]);
        }
    }
    assert forall|i: int| 0 <= i < all.len() implies (#[trigger] all[i]).wf() by {
        if i < n {
            assert(all[i] == list[i]);
        }
    }
    assert forall|id: u64| before.has(id) implies after.has(id) && #[trigger] after.sequence(id)
        == before.sequence(id) by {
        let k = state::index_of(list, id);
        assert(list[k].id == id);
        assert(all[k] == list[k]);
        state::lemma_index(all, k);
    }
    assert(after.has(fresh.id)) by {
        assert(all[n].id == fresh.id);
    }
    assert forall|id: u64| #[trigger] after.scheduler.holds(id) implies after.has(id) by {
        if after.scheduler.waiting@.contains(id) {
            let k = after.scheduler.waiting@.index_of(id);
            if k < before.scheduler.waiting@.len() {
                assert(before.scheduler.waiting@[k] == id);
                assert(before.scheduler.waiting@.contains(id));
                assert(before.scheduler.holds(id));
                assert(before.has(id));
                assert(after.sequence(id) == before.sequence(id));
            }
        } else {
            assert(before.scheduler.holds(id));
            assert(before.has(id));
            assert(after.sequence(id) == before.sequence(id));
        }
    }
    assert forall|id: u64| #[trigger] after.scheduler.running@.contains(id) implies after.sequence(
        id,
    ).generated() >= 1 by {
        assert(before.scheduler.holds(id));
        assert(before.sequence(id).generated() >= 1);
        assert(before.has(id));
        assert(after.sequence(id) == before.sequence(id));
    }
    if let Some(id) = after.active {
        assert(before.has(id));
        assert(after.sequence(id) == before.sequence(id));
    }
    assert(state::page_tables(all) =~= state::page_tables(list).push(fresh.paged_kv));
    ownership::law_empty_sequence_can_come(
        before.paged_kv_allocator,
        state::page_tables(list),
        fresh.paged_kv,
    );
}

/// A lower limit on running sequences does not last: each sequence that goes raises it by one,
/// until it is lifted.
pub proof fn law_cap_is_lifted(cap: usize, nothing_waits: bool, max_running: usize)
    ensures
        relaxed(Some(cap), nothing_waits, max_running) matches Some(next) ==> next == cap + 1
            && next < max_running && !nothing_waits,
        nothing_waits || cap + 1 >= max_running ==> relaxed(
            Some(cap),
            nothing_waits,
            max_running,
        ) is None,
{
}

/// An accepted sequence never outgrows the limit: prompt and completion together stay within it.
pub proof fn law_accepted_sequence_fits(
    before: InferenceEngine,
    after: InferenceEngine,
    request: EngineRequest,
    seed: u64,
)
    requires
        before.memory_config.max_seq_len > 0,
        !before.memory_config.rejects(request.tokens@.len() as int),
        accepted(before, after, request, seed),
    ensures
        after.sequences@.last().prompt_len + after.sequences@.last().max_tokens
            <= before.memory_config.max_seq_len,
{
    memory::law_accepted_request_fits(
        before.memory_config,
        request.tokens@.len() as int,
        request.max_tokens as int,
    );
}

} // verus!
