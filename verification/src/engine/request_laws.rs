//! What a request asked for is what its sequence is served with, until it is gone.
use super::lifecycle::{self, EngineRequest};
use super::paged;
use super::scheduler;
use super::sequence::{self, Sequence, SequenceStatus};
use super::state::{self, InferenceEngine};
use crate::memory;
use crate::paged_kv::ownership;
use crate::stats;
use crate::tensors;
use vstd::prelude::*;

verus! {

/// An accepted request waits as a sequence of its own, behind all others: its prompt is all it
/// has, it owns no page and no cache, and each parameter is the one that was asked for. What was
/// there before it is as it was.
pub proof fn law_request_is_taken_as_asked(
    before: InferenceEngine,
    after: InferenceEngine,
    request: EngineRequest,
    seed: u64,
    other: u64,
)
    requires
        before.wf(),
        !before.has(request.id),
        lifecycle::accepted(before, after, request, seed),
        before.has(other),
    ensures
        after.has(request.id),
        ({
            let taken = after.sequence(request.id);
            &&& taken.tokens@ == request.tokens@
            &&& taken.prompt_len == request.tokens@.len()
            &&& taken.temperature == request.temperature
            &&& taken.top_p == request.top_p
            &&& taken.top_k == request.top_k
            &&& taken.repetition_penalty == request.repetition_penalty
            &&& taken.eos_token_id@ == request.eos_token_id@
            &&& taken.sampling_seed == seed
            &&& taken.max_tokens <= request.max_tokens
            &&& taken.repeat_last_n == 64
            &&& taken.status == SequenceStatus::Waiting
            &&& !taken.has_caches()
            &&& taken.paged_kv.blocks@.len() == 0
        }),
        after.scheduler.waiting@.contains(request.id),
        !before.scheduler.running@.contains(request.id) ==> !after.scheduler.running@.contains(
            request.id,
        ),
        forall|first: u64| #[trigger]
            before.scheduler.waiting@.contains(first) ==> scheduler::ahead(
                after.scheduler.waiting@,
                first,
                request.id,
            ),
        after.has(other) && after.sequence(other) == before.sequence(other),
        stats::moved(before.stats.total_requests, after.stats.total_requests) == 1,
        stats::moved(before.stats.total_prompt_tokens, after.stats.total_prompt_tokens)
            == request.tokens@.len(),
{
    let list = before.sequences@;
    let all = after.sequences@;
    let n = list.len() as int;
    assert(all =~= list.push(all[n]));
    assert forall|i: int, j: int| 0 <= i < j < all.len() implies (#[trigger] all[i]).id != (
    #[trigger] all[j]).id by {
        if j == n {
            if list[i].id == request.id {
                assert(state::has_id(list, request.id));
            }
        } else {
            assert(list[i].id != list[j].id);
        }
    }
    state::lemma_index(all, n);
    let fresh = all[n];
    assert(after.sequence(request.id) == fresh);
    assert forall|i: int| 0 <= i < fresh.kv_caches@.len() implies (
    #[trigger] fresh.kv_caches@[i]) is None by {
        assert(sequence::no_caches(before.settings.num_layers as int)[i] is None);
    }
    memory::law_allowance_is_the_largest(
        before.memory_config,
        request.tokens@.len() as int,
        request.max_tokens as int,
    );
    assert(request.tokens@.len() == request.tokens.len());
    let k = state::index_of(list, other);
    assert(list[k].id == other);
    assert(all[k] == list[k]);
    state::lemma_index(all, k);
    let line = before.scheduler.waiting@;
    let longer = after.scheduler.waiting@;
    assert(longer[line.len() as int] == request.id);
    assert forall|first: u64| #[trigger] line.contains(first) implies scheduler::ahead(
        longer,
        first,
        request.id,
    ) by {
        let i = line.index_of(first);
        assert(longer[i] == first);
    }
}

/// A list without the sequence at `at` holds all others as they were.
proof fn lemma_one_goes(
    list: Seq<Sequence>,
    mid: Seq<Sequence>,
    rest: Seq<Sequence>,
    at: int,
    other: u64,
)
    requires
        state::unique_ids(list),
        0 <= at < list.len(),
        mid == list.update(at, mid[at]),
        mid[at].id == list[at].id,
        rest == lifecycle::without_id(mid, list[at].id),
        state::has_id(list, other),
        other != list[at].id,
    ensures
        !state::has_id(rest, list[at].id),
        state::has_id(rest, other),
        rest[state::index_of(rest, other)] == list[state::index_of(list, other)],
{
    let id = list[at].id;
    state::lemma_update_keeps_ids(list, at, mid[at]);
    state::lemma_index(list, at);
    state::lemma_index(mid, at);
    let place = |i: int|
        if i < at {
            i
        } else {
            i + 1
        };
    assert forall|i: int, j: int| 0 <= i < j < rest.len() implies (#[trigger] rest[i]).id != (
    #[trigger] rest[j]).id by {
        assert(rest[i] == mid[place(i)] && rest[j] == mid[place(j)]);
        assert(mid[place(i)].id != mid[place(j)].id);
    }
    if state::has_id(rest, id) {
        let m = state::index_of(rest, id);
        assert(rest[m].id == id && rest[m] == mid[place(m)]);
        state::lemma_index(mid, place(m));
        assert(false);
    }
    let k = state::index_of(list, other);
    assert(list[k].id == other);
    let m = if k < at {
        k
    } else {
        k - 1
    };
    assert(rest[m] == mid[k]);
    state::lemma_index(rest, m);
}

/// A sequence that goes leaves nothing and takes nothing along: it is in no queue and its pages are
/// free again, the others keep their places in line and all that they have but page figures, and
/// what its caches took up is no longer counted.
pub proof fn law_cleanup_leaves_the_others(
    before: InferenceEngine,
    after: InferenceEngine,
    id: u64,
    active_bytes: u64,
    other: u64,
)
    requires
        before.wf(),
        before.has(id),
        lifecycle::cleaned(before, after, id, active_bytes),
        before.has(other),
        other != id,
    ensures
        !after.has(id),
        !after.scheduler.holds(id),
        after.has(other),
        after.sequence(other) == before.sequence(other),
        before.scheduler.waiting@.contains(other) <==> after.scheduler.waiting@.contains(other),
        before.scheduler.running@.contains(other) <==> after.scheduler.running@.contains(other),
        before.active == Some(other) <==> after.active == Some(other),
        after.paged_kv_allocator.live_pages + before.sequence(id).paged_kv.blocks@.len()
            == before.paged_kv_allocator.live_pages,
        before.active == Some(id) && active_bytes <= before.tracked_kv_bytes
            ==> after.tracked_kv_bytes + active_bytes == before.tracked_kv_bytes,
        before.active != Some(id) && tensors::caches_bytes(
            before.sequence(id).kv_caches@,
            before.sequence(id).kv_caches@.len() as int,
        ) <= before.tracked_kv_bytes ==> after.tracked_kv_bytes + tensors::caches_bytes(
            before.sequence(id).kv_caches@,
            before.sequence(id).kv_caches@.len() as int,
        ) == before.tracked_kv_bytes,
        after.stats.tracked_kv_cache_bytes.value == after.tracked_kv_bytes,
{
    let trimmed = lifecycle::untracked(
        before,
        lifecycle::freed_bytes(before, id, active_bytes),
    );
    let emptied = choose|emptied: InferenceEngine|
        {
            &&& #[trigger] paged::released(trimmed, emptied, id)
            &&& after.sequences@ == lifecycle::without_id(emptied.sequences@, id)
            &&& after.scheduler.waiting@ == scheduler::without(before.scheduler.waiting@, id)
            &&& after.scheduler.running@ == scheduler::without(before.scheduler.running@, id)
            &&& after == (InferenceEngine {
                sequences: after.sequences,
                scheduler: after.scheduler,
                active: if before.active == Some(id) {
                    None
                } else {
                    before.active
                },
                ..emptied
            })
        };
    scheduler::lemma_without(before.scheduler.waiting@, id);
    scheduler::lemma_without(before.scheduler.running@, id);
    let list = before.sequences@;
    let at = state::index_of(list, id);
    assert(list[at].id == id);
    assert(trimmed.has(id));
    lemma_one_goes(list, emptied.sequences@, after.sequences@, at, other);
    let held = list[at].kv_caches@;
    tensors::lemma_caches_bytes_nonnegative(held, held.len() as int);
    assert(before.sequence(id) == list[at]);
    assert(state::page_tables(list)[at] == list[at].paged_kv);
    ownership::lemma_own_blocks_are_live(state::page_tables(list), at);
}

/// A finished sequence counts as completed with the tokens that it generated, one that failed or
/// was cancelled does not.
pub proof fn law_completions_are_counted(engine: InferenceEngine, id: u64)
    requires
        engine.wf(),
    ensures
        engine.has(id) ==> {
            &&& stats::moved(
                engine.stats.completed_requests,
                lifecycle::finished(engine, id).completed_requests,
            ) == 1
            &&& engine.sequence(id).tokens@.len() <= u64::MAX ==> stats::moved(
                engine.stats.total_completion_tokens,
                lifecycle::finished(engine, id).total_completion_tokens,
            ) == engine.sequence(id).tokens@.len() - engine.sequence(id).prompt_len
        },
        !engine.has(id) ==> lifecycle::finished(engine, id) == engine.stats,
{
    if engine.has(id) {
        let k = state::index_of(engine.sequences@, id);
        assert(engine.sequences@[k].id == id);
        assert(engine.sequences@[k].wf());
    }
}

} // verus!
