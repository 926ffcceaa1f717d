//! Sends running sequences back to wait when KV memory runs out.
use super::paged;
use super::scheduler;
use super::sequence::{self, Sequence, SequenceStatus};
use super::state::{self, InferenceEngine};
use crate::memory;
use crate::stats::{Counter, EngineStats};
use crate::tensors;
use vstd::prelude::*;

verus! {

/// A sequence that was sent back, and the pages of it that have to be set to zero on the device.
#[derive(Debug)]
pub struct Victim {
    pub id: u64,
    pub zero: Vec<u32>,
}

/// Steps without a look at the device's own memory use after an eviction.
pub const EVICTION_COOLDOWN: u32 = 5;

/// `sequence` as it was before its prefill.
pub open spec fn was_reset(before: Sequence, after: Sequence, layers: int) -> bool {
    &&& after.kv_caches@ == sequence::no_caches(layers)
    &&& after.tokens@ == before.tokens@.take(before.prompt_len as int)
    &&& after == (Sequence {
        kv_caches: after.kv_caches,
        tokens: after.tokens,
        status: SequenceStatus::Waiting,
        ..before
    })
}

/// `id` stands at place `k` of the running sequences, none of which has generated more tokens, and
/// those behind it have generated fewer.
pub open spec fn longest_at(engine: InferenceEngine, id: u64, k: int) -> bool {
    let running = engine.scheduler.running@;
    &&& 0 <= k < running.len()
    &&& running[k] == id
    &&& forall|j: int|
        0 <= j < running.len() ==> engine.sequence(#[trigger] running[j]).generated()
            <= engine.sequence(id).generated()
    &&& forall|j: int|
        k < j < running.len() ==> engine.sequence(#[trigger] running[j]).generated()
            < engine.sequence(id).generated()
}

/// The running sequence to send back first: the one with the longest output, and of several
/// the last.
pub open spec fn is_victim(engine: InferenceEngine, id: u64) -> bool {
    exists|k: int| #[trigger] longest_at(engine, id, k)
}

/// `after` is `before` with sequence `id` sent back: reset, without pages, untracked, and last
/// in line.
pub open spec fn evicted(before: InferenceEngine, after: InferenceEngine, id: u64) -> bool {
    let at = state::index_of(before.sequences@, id);
    let held = before.sequences@[at].kv_caches@;
    let left = memory::less(
        before.tracked_kv_bytes as int,
        tensors::capped(tensors::caches_bytes(held, held.len() as int)),
    ) as u64;
    exists|fresh: InferenceEngine, emptied: InferenceEngine|
        {
            &&& was_reset(
                before.sequences@[at],
                fresh.sequences@[at],
                before.settings.num_layers as int,
            )
            &&& fresh.sequences@ == before.sequences@.update(at, fresh.sequences@[at])
            &&& fresh == (InferenceEngine {
                sequences: fresh.sequences,
                scheduler: fresh.scheduler,
                active: if before.active == Some(id) {
                    None
                } else {
                    before.active
                },
                ..before
            })
            &&& #[trigger] paged::released(fresh, emptied, id)
            &&& fresh.scheduler.running@ == scheduler::without(before.scheduler.running@, id)
            &&& fresh.scheduler.waiting@ == before.scheduler.waiting@.push(id)
            &&& fresh.scheduler.max_running == before.scheduler.max_running
            &&& fresh.scheduler.effective_max_running == before.scheduler.effective_max_running
            &&& after == (InferenceEngine {
                tracked_kv_bytes: left,
                stats: EngineStats {
                    tracked_kv_cache_bytes: Counter { value: left },
                    ..emptied.stats
                },
                ..emptied
            })
        }
}

/// Sending `victim` back leads from `before` to `after`, and was due: the KV bytes exceeded
/// `budget`.
pub open spec fn eviction_step(
    before: InferenceEngine,
    after: InferenceEngine,
    victim: Victim,
    budget: int,
) -> bool {
    &&& before.wf()
    &&& before.tracked_kv_bytes > budget
    &&& is_victim(before, victim.id)
    &&& evicted(before, after, victim.id)
    &&& victim.zero@ == paged::pages_to_zero(before, victim.id)
}

/// `trace` leads from one state to the next by sending `victims` back, each while the KV bytes
/// exceed `budget`.
pub open spec fn eviction_trace(
    trace: Seq<InferenceEngine>,
    victims: Seq<Victim>,
    budget: int,
) -> bool {
    &&& trace.len() == victims.len() + 1
    &&& forall|k: int| #![trigger victims[k]]
        0 <= k < victims.len() ==> eviction_step(trace[k], trace[k + 1], victims[k], budget)
}

/// `after` is `before` with as many running sequences sent back as it takes to get within
/// `budget`, the queue capped to what still runs, and a cooldown.
pub open spec fn evicted_all(
    before: InferenceEngine,
    after: InferenceEngine,
    victims: Seq<Victim>,
    budget: int,
) -> bool {
    exists|trace: Seq<InferenceEngine>|
        {
            &&& #[trigger] eviction_trace(trace, victims, budget)
            &&& trace[0] == before
            &&& after.scheduler == (scheduler::Scheduler {
                effective_max_running: Some(trace.last().scheduler.running@.len() as usize),
                ..trace.last().scheduler
            })
            &&& after == (InferenceEngine {
                scheduler: after.scheduler,
                eviction_cooldown: EVICTION_COOLDOWN,
                ..trace.last()
            })
        }
}

/// The same sequences are there, the same settings hold, and nothing is queued that was not.
pub open spec fn same_population(before: InferenceEngine, after: InferenceEngine) -> bool {
    &&& after.memory_config == before.memory_config
    &&& after.settings == before.settings
    &&& forall|id: u64| #[trigger] after.has(id) <==> before.has(id)
    &&& forall|id: u64| #[trigger] after.scheduler.holds(id) ==> before.scheduler.holds(id)
}

impl InferenceEngine {
    fn find_victim(&self) -> (result: u64)
        requires
            self.wf(),
            self.scheduler.running@.len() > 0,
        ensures
            is_victim(*self, result),
            self.scheduler.running@.contains(result),
            self.has(result),
    {
        let running = &self.scheduler.running;
        let mut best: usize = 0;
        let mut most: usize = 0;
        let mut j: usize = 0;
        while j < running.len()
            invariant
                j <= running@.len(),
                running == self.scheduler.running,
                self.wf(),
                running@.len() > 0,
                best < running@.len(),
                j > 0 ==> best < j && most == self.sequence(
                    running@[best as int],
                ).generated(),
                j == 0 ==> best == 0 && most == 0,
                forall|i: int|
                    0 <= i < j ==> self.sequence(#[trigger] running@[i]).generated() <= most,
                forall|i: int|
                    best < i < j ==> self.sequence(#[trigger] running@[i]).generated() < most,
            decreases running@.len() - j,
        {
            assert(self.scheduler.running@.contains(running@[j as int]));
            assert(self.scheduler.holds(running@[j as int]));
            match self.find(running[j]) {
                Some(i) => {
                    let len: usize = self.sequences[i].num_generated();
                    if len >= most {
                        best = j;
                        most = len;
                    }
                },
                None => {
                    assert(false);
                },
            }
            j = j + 1;
        }
        let id: u64 = running[best];
        assert(longest_at(*self, id, best as int));
        assert(self.scheduler.running@.contains(id));
        assert(self.scheduler.holds(id));
        id
    }

    /// Sends one running sequence back to wait.
    pub fn evict(&mut self, id: u64) -> (result: Vec<u32>)
        requires
            old(self).wf(),
            old(self).scheduler.running@.contains(id),
        ensures
            final(self).wf(),
            evicted(*old(self), *final(self), id),
            final(self).scheduler.running@.len() < old(self).scheduler.running@.len(),
            same_population(*old(self), *final(self)),
            result@ == paged::pages_to_zero(*old(self), id),
    {
        let ghost before = *self;
        assert(before.scheduler.holds(id));
        let is_active = match self.active {
            Some(active) => active == id,
            None => false,
        };
        if is_active {
            self.active = None;
        }
        let mut freed: u64 = 0;
        let layers: usize = self.settings.num_layers;
        let ghost at = state::index_of(before.sequences@, id);
        match self.find(id) {
            Some(i) => {
                freed = tensors::kv_cache_bytes(self.sequences[i].kv_caches.as_slice());
                let seq: &mut Sequence = &mut self.sequences[i];
                seq.kv_caches = sequence::empty_caches(layers);
                seq.status = SequenceStatus::Waiting;
                seq.tokens.truncate(seq.prompt_len);
            },
            None => {
                assert(false);
            },
        }
        self.scheduler.preempt(id);
        let ghost fresh = *self;
        proof {
            let value = fresh.sequences@[at];
            assert(before.sequences@[at].wf());
            assert(value.tokens@ =~= before.sequences@[at].tokens@.take(
                before.sequences@[at].prompt_len as int,
            ));
            assert(fresh.sequences@ =~= before.sequences@.update(at, value));
            assert(state::page_tables(before.sequences@).update(at, value.paged_kv)
                =~= state::page_tables(before.sequences@));
            scheduler::lemma_without(before.scheduler.running@, id);
            assert forall|other: u64| #[trigger] fresh.scheduler.holds(other) implies before.has(
                other,
            ) by {
                if fresh.scheduler.running@.contains(other) {
                    assert(before.scheduler.running@.contains(other));
                    assert(before.scheduler.holds(other));
                } else {
                    let k = fresh.scheduler.waiting@.index_of(other);
                    if k < before.scheduler.waiting@.len() {
                        assert(before.scheduler.waiting@[k] == other);
                        assert(before.scheduler.waiting@.contains(other));
                        assert(before.scheduler.holds(other));
                    }
                }
            }
            assert forall|other: u64| #[trigger] fresh.scheduler.running@.contains(
                other,
            ) implies other == value.id || before.scheduler.running@.contains(other) by {
                assert(scheduler::without(before.scheduler.running@, id).contains(other));
            }
            assert(!fresh.scheduler.running@.contains(id));
            state::lemma_touch_keeps_wf(before, fresh, at, value);
            assert(fresh.sequence(id) == value);
        }
        let zero = self.release_paged_kv_for_sequence(id);
        let ghost emptied = *self;
        self.tracked_kv_bytes = self.tracked_kv_bytes.saturating_sub(freed);
        self.stats.tracked_kv_cache_bytes.store(self.tracked_kv_bytes);
        assert(paged::released(fresh, emptied, id));
        proof {
            state::lemma_update_keeps_ids(fresh.sequences@, at, emptied.sequences@[at]);
            assert forall|other: u64| #[trigger] self.has(other) <==> before.has(other) by {
                assert(state::has_id(emptied.sequences@, other) <==> state::has_id(
                    fresh.sequences@,
                    other,
                ));
                assert(fresh.has(other) <==> before.has(other));
            }
            assert forall|other: u64| #[trigger] self.scheduler.holds(
                other,
            ) implies before.scheduler.holds(other) by {
                assert(fresh.scheduler.holds(other));
                if fresh.scheduler.running@.contains(other) {
                    assert(scheduler::without(before.scheduler.running@, id).contains(other));
                } else {
                    let k = fresh.scheduler.waiting@.index_of(other);
                    if k < before.scheduler.waiting@.len() {
                        assert(before.scheduler.waiting@[k] == other);
                        assert(before.scheduler.waiting@.contains(other));
                    }
                }
            }
        }
        zero
    }

    /// Sends running sequences back to wait, longest output first, until the KV bytes are within
    /// budget or nothing runs. Without a limit nothing happens.
    pub fn evict_if_needed(&mut self) -> (result: Vec<Victim>)
        requires
            old(self).wf(),
        ensures
            final(self).wf(),
            same_population(*old(self), *final(self)),
            old(self).memory_config.kv_budget() == u64::MAX ==> {
                &&& result@.len() == 0
                &&& *final(self) == *old(self)
            },
            old(self).memory_config.kv_budget() != u64::MAX ==> {
                &&& evicted_all(
                    *old(self),
                    *final(self),
                    result@,
                    old(self).memory_config.kv_budget(),
                )
                &&& final(self).tracked_kv_bytes <= old(self).memory_config.kv_budget()
                    || final(self).scheduler.running@.len() == 0
                &&& final(self).scheduler.effective_max_running == Some(
                    final(self).scheduler.running@.len() as usize,
                )
                &&& final(self).eviction_cooldown == EVICTION_COOLDOWN
            },
    {
        let ghost before = *self;
        let budget: u64 = self.memory_config.kv_budget_bytes();
        let mut victims: Vec<Victim> = Vec::new();
        if budget == u64::MAX {
            return victims;
        }
        let ghost mut trace: Seq<InferenceEngine> = seq![*self];
        while self.tracked_kv_bytes > budget && self.scheduler.running.len() > 0
            invariant
                self.wf(),
                budget == before.memory_config.kv_budget(),
                same_population(before, *self),
                eviction_trace(trace, victims@, budget as int),
                trace[0] == before,
                trace.last() == *self,
            decreases self.scheduler.running@.len(),
        {
            let ghost step = *self;
            let id: u64 = self.find_victim();
            let zero = self.evict(id);
            let ghost held = victims@;
            let ghost old_trace = trace;
            victims.push(Victim { id, zero });
            proof {
                trace = trace.push(*self);
                let victim = victims@[held.len() as int];
                assert(eviction_step(step, *self, victim, budget as int));
                assert forall|k: int| #![trigger victims@[k]]
                    0 <= k < victims@.len() implies eviction_step(
                    trace[k],
                    trace[k + 1],
                    victims@[k],
                    budget as int,
                ) by {
                    if k < held.len() {
                        assert(victims@[k] == held[k]);
                        assert(trace[k] == old_trace[k] && trace[k + 1] == old_trace[k + 1]);
                    } else {
                        assert(trace[k] == step && trace[k + 1] == *self);
                    }
                }
            }
        }
        let ghost last = *self;
        self.scheduler.effective_max_running = Some(self.scheduler.running.len());
        self.eviction_cooldown = EVICTION_COOLDOWN;
        assert(eviction_trace(trace, victims@, budget as int));
        proof {
            assert forall|id: u64| #[trigger] self.scheduler.holds(id) implies self.has(id)
                && before.scheduler.holds(id) by {
                assert(last.scheduler.holds(id));
                assert(last.has(id));
            }
            assert forall|id: u64| #[trigger] self.has(id) <==> before.has(id) by {
                assert(last.has(id) <==> before.has(id));
            }
            assert forall|id: u64| #[trigger] self.scheduler.running@.contains(
                id,
            ) implies self.sequence(id).generated() >= 1 by {
                assert(last.scheduler.running@.contains(id));
                assert(last.sequence(id).generated() >= 1);
            }
        }
        victims
    }
}

/// An evicted sequence is kept: it waits, last in line, and has its prompt again.
pub proof fn law_eviction_keeps_the_request(
    before: InferenceEngine,
    after: InferenceEngine,
    id: u64,
)
    requires
        before.wf(),
        before.scheduler.running@.contains(id),
        evicted(before, after, id),
    ensures
        after.scheduler.waiting@ == before.scheduler.waiting@.push(id),
        !after.scheduler.running@.contains(id),
        after.sequences@[state::index_of(before.sequences@, id)].tokens@
            == before.sequence(id).tokens@.take(before.sequence(id).prompt_len as int),
        after.sequences@[state::index_of(before.sequences@, id)].id == id,
        after.tracked_kv_bytes <= before.tracked_kv_bytes,
{
    assert(before.scheduler.holds(id));
    let at = state::index_of(before.sequences@, id);
    assert(before.sequences@[at].id == id);
    scheduler::lemma_without(before.scheduler.running@, id);
    let (fresh, emptied) = choose|fresh: InferenceEngine, emptied: InferenceEngine|
        {
            &&& was_reset(
                before.sequences@[at],
                fresh.sequences@[at],
                before.settings.num_layers as int,
            )
            &&& fresh.sequences@ == before.sequences@.update(at, fresh.sequences@[at])
            &&& #[trigger] paged::released(fresh, emptied, id)
            &&& fresh.scheduler.running@ == scheduler::without(before.scheduler.running@, id)
            &&& fresh.scheduler.waiting@ == before.scheduler.waiting@.push(id)
            &&& after.sequences == emptied.sequences
            &&& after.scheduler == emptied.scheduler
        };
    state::lemma_update_keeps_ids(before.sequences@, at, fresh.sequences@[at]);
    assert(state::has_id(fresh.sequences@, id));
    assert(state::index_of(fresh.sequences@, id) == at);
    let held = before.sequences@[at].kv_caches@;
    tensors::lemma_caches_bytes_nonnegative(held, held.len() as int);
}

/// The sequence to send back has the longest output of all that run: no running sequence has
/// generated more, and none that started later has generated as much.
pub proof fn law_longest_output_goes_first(engine: InferenceEngine, victim: u64, other: u64)
    requires
        engine.wf(),
        is_victim(engine, victim),
        engine.scheduler.running@.contains(other),
        other != victim,
    ensures
        engine.scheduler.running@.contains(victim),
        engine.sequence(victim).tokens@.len() - engine.sequence(victim).prompt_len
            >= engine.sequence(other).tokens@.len() - engine.sequence(other).prompt_len,
        scheduler::ahead(engine.scheduler.running@, victim, other) ==> engine.sequence(
            victim,
        ).tokens@.len() - engine.sequence(victim).prompt_len > engine.sequence(other).tokens@.len()
            - engine.sequence(other).prompt_len,
{
    let running = engine.scheduler.running@;
    let k = choose|k: int| #[trigger] longest_at(engine, victim, k);
    let j = running.index_of(other);
    assert(running[j] == other && running[k] == victim);
    assert(engine.scheduler.holds(victim) && engine.scheduler.holds(other));
    assert(engine.has(victim) && engine.has(other));
    if scheduler::ahead(running, victim, other) {
        let (a, b) = choose|a: int, b: int|
            0 <= a < b < running.len() && #[trigger] running[a] == victim && #[trigger] running[b]
                == other;
        assert(a == k && b == j);
    }
}

/// Of ids without repetition one less is left.
proof fn lemma_without_one(ids: Seq<u64>, id: u64)
    requires
        ids.no_duplicates(),
        ids.contains(id),
    ensures
        scheduler::without(ids, id).len() + 1 == ids.len(),
    decreases ids.len(),
{
    reveal_with_fuel(Seq::filter, 2);
    let head = ids.drop_last();
    if ids.last() == id {
        assert(!head.contains(id)) by {
            if head.contains(id) {
                let k = head.index_of(id);
                assert(ids[k] == ids[ids.len() - 1]);
            }
        }
        scheduler::lemma_without(head, id);
    } else {
        let k = ids.index_of(id);
        assert(head[k] == id);
        lemma_without_one(head, id);
    }
}

/// One sequence is sent back at a time, and the rest does not notice: who else runs, runs on in the
/// same order, who waited, waits in front of it, and every other sequence keeps its tokens and its
/// parameters.
pub proof fn law_eviction_leaves_the_others(
    before: InferenceEngine,
    after: InferenceEngine,
    id: u64,
    other: u64,
)
    requires
        before.wf(),
        before.scheduler.running@.contains(id),
        evicted(before, after, id),
        before.has(other),
        other != id,
    ensures
        after.has(other),
        after.sequence(other).tokens@ == before.sequence(other).tokens@,
        after.sequence(other).kv_caches == before.sequence(other).kv_caches,
        after.sequence(other).status == before.sequence(other).status,
        after.sequence(other).max_tokens == before.sequence(other).max_tokens,
        before.scheduler.running@.contains(other) <==> after.scheduler.running@.contains(other),
        before.scheduler.waiting@.contains(other) <==> after.scheduler.waiting@.contains(other),
        before.scheduler.waiting@.contains(other) ==> scheduler::ahead(
            after.scheduler.waiting@,
            other,
            id,
        ),
        after.scheduler.running@.len() + 1 == before.scheduler.running@.len(),
{
    assert(before.scheduler.holds(id));
    let at = state::index_of(before.sequences@, id);
    assert(before.sequences@[at].id == id);
    scheduler::lemma_without(before.scheduler.running@, id);
    lemma_without_one(before.scheduler.running@, id);
    let (fresh, emptied) = choose|fresh: InferenceEngine, emptied: InferenceEngine|
        {
            &&& was_reset(
                before.sequences@[at],
                fresh.sequences@[at],
                before.settings.num_layers as int,
            )
            &&& fresh.sequences@ == before.sequences@.update(at, fresh.sequences@[at])
            &&& #[trigger] paged::released(fresh, emptied, id)
            &&& fresh.scheduler.running@ == scheduler::without(before.scheduler.running@, id)
            &&& fresh.scheduler.waiting@ == before.scheduler.waiting@.push(id)
            &&& emptied.scheduler == fresh.scheduler
            &&& after.sequences == emptied.sequences
            &&& after.scheduler == emptied.scheduler
        };
    state::lemma_update_keeps_ids(before.sequences@, at, fresh.sequences@[at]);
    assert(state::has_id(fresh.sequences@, id));
    assert(state::index_of(fresh.sequences@, id) == at);
    state::lemma_update_keeps_ids(fresh.sequences@, at, after.sequences@[at]);
    assert(after.sequences@ =~= fresh.sequences@.update(at, after.sequences@[at]));
    assert(state::has_id(before.sequences@, other));
    assert(state::has_id(fresh.sequences@, other));
    assert(state::has_id(after.sequences@, other));
    let k = state::index_of(before.sequences@, other);
    assert(before.sequences@[k].id == other);
    assert(state::index_of(fresh.sequences@, other) == k);
    assert(state::index_of(after.sequences@, other) == k);
    let line = before.scheduler.waiting@;
    let longer = after.scheduler.waiting@;
    if line.contains(other) {
        let i = line.index_of(other);
        assert(longer[i] == other && longer[line.len() as int] == id);
    }
    if longer.contains(other) {
        let i = longer.index_of(other);
        assert(i < line.len());
        assert(line[i] == other);
    }
}

} // verus!
