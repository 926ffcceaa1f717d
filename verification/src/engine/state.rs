//! Engine state and what always holds of it.
use super::config::{self, EngineEnv, EngineSettings, ModelTraits};
use super::extract::BatchedKvExtract;
use super::scheduler::Scheduler;
use super::sequence::Sequence;
use crate::cuda_graph::CudaGraphCache;
use crate::memory::MemoryConfig;
use crate::paged_kv::ownership;
use crate::paged_kv::{PagedKvAllocator, PagedKvGpuPageStore, PagedKvLayout, PagedKvSequence};
use crate::stats::{Counter, EngineStats};
use crate::tensors;
use vstd::prelude::*;

verus! {

/// A batch whose keys and values were taken from pages and wait for the next decode step.
pub struct PendingExtract {
    pub batch: Vec<u64>,
    pub extract: BatchedKvExtract,
}

/// Continuous-batching inference engine.
pub struct InferenceEngine {
    pub settings: EngineSettings,
    pub memory_config: MemoryConfig,
    /// Sequences in the order in which they came.
    pub sequences: Vec<Sequence>,
    pub scheduler: Scheduler,
    /// The sequence whose keys and values the model holds.
    pub active: Option<u64>,
    pub stats: EngineStats,
    pub paged_kv_allocator: PagedKvAllocator,
    pub paged_kv_gpu_store: Option<PagedKvGpuPageStore>,
    /// KV cache bytes of all sequences.
    pub tracked_kv_bytes: u64,
    /// Steps before the device's own memory use counts again after an eviction.
    pub eviction_cooldown: u32,
    pub step_counter: u64,
    pub graphs: CudaGraphCache,
    pub pending_batched_kv_extract: Option<PendingExtract>,
}

/// Page tables of a list of sequences.
pub open spec fn page_tables(sequences: Seq<Sequence>) -> Seq<PagedKvSequence> {
    Seq::new(sequences.len(), |i: int| sequences[i].paged_kv)
}

/// Some sequence has this id.
pub open spec fn has_id(sequences: Seq<Sequence>, id: u64) -> bool {
    exists|i: int| 0 <= i < sequences.len() && (#[trigger] sequences[i]).id == id
}

/// No id is used twice.
pub open spec fn unique_ids(sequences: Seq<Sequence>) -> bool {
    forall|i: int, j: int|
        0 <= i < j < sequences.len() ==> (#[trigger] sequences[i]).id != (
        #[trigger] sequences[j]).id
}

/// Where the sequence with this id stands in the list.
pub open spec fn index_of(sequences: Seq<Sequence>, id: u64) -> int {
    choose|i: int| 0 <= i < sequences.len() && (#[trigger] sequences[i]).id == id
}

/// The place of an id is the one where it stands.
pub proof fn lemma_index(sequences: Seq<Sequence>, i: int)
    requires
        unique_ids(sequences),
        0 <= i < sequences.len(),
    ensures
        has_id(sequences, sequences[i].id),
        index_of(sequences, sequences[i].id) == i,
{
    let id = sequences[i].id;
    assert(has_id(sequences, id));
    let j = index_of(sequences, id);
    assert(0 <= j < sequences.len() && sequences[j].id == id);
    if j < i {
        assert(sequences[j].id != sequences[i].id);
    } else if i < j {
        assert(sequences[i].id != sequences[j].id);
    }
}

/// Replacing a sequence by one with the same id keeps every id in its place.
pub proof fn lemma_update_keeps_ids(before: Seq<Sequence>, i: int, value: Sequence)
    requires
        unique_ids(before),
        0 <= i < before.len(),
        value.id == before[i].id,
    ensures
        unique_ids(before.update(i, value)),
        forall|id: u64| #[trigger]
            has_id(before.update(i, value), id) <==> has_id(before, id),
        forall|id: u64|
            has_id(before, id) ==> #[trigger] index_of(before.update(i, value), id) == index_of(
                before,
                id,
            ),
        page_tables(before.update(i, value)) == page_tables(before).update(i, value.paged_kv),
{
    let after = before.update(i, value);
    assert forall|a: int, b: int| 0 <= a < b < after.len() implies (#[trigger] after[a]).id != (
    #[trigger] after[b]).id by {
        assert(before[a].id != before[b].id);
    }
    assert forall|id: u64| #[trigger] has_id(after, id) <==> has_id(before, id) by {
        if has_id(after, id) {
            let k = index_of(after, id);
            assert(before[k].id == id);
        }
        if has_id(before, id) {
            let k = index_of(before, id);
            assert(after[k].id == id);
        }
    }
    assert forall|id: u64| has_id(before, id) implies #[trigger] index_of(after, id) == index_of(
        before,
        id,
    ) by {
        let k = index_of(before, id);
        assert(after[k].id == id);
        lemma_index(after, k);
    }
    assert(page_tables(after) =~= page_tables(before).update(i, value.paged_kv));
}

/// Changing one sequence, its pages and the queues keeps the books in order, as long as the
/// pages stay partitioned and a sequence that runs has generated something.
pub proof fn lemma_touch_keeps_wf(
    before: InferenceEngine,
    after: InferenceEngine,
    i: int,
    value: Sequence,
)
    requires
        before.wf(),
        0 <= i < before.sequences@.len(),
        value.id == before.sequences@[i].id,
        value.wf(),
        after.sequences@ == before.sequences@.update(i, value),
        ownership::pages_partitioned(
            after.paged_kv_allocator,
            page_tables(before.sequences@).update(i, value.paged_kv),
        ),
        after.paged_kv_allocator.balanced(),
        after.paged_kv_allocator.spare(0),
        after.scheduler.wf(),
        forall|id: u64| #[trigger] after.scheduler.holds(id) ==> before.has(id),
        forall|id: u64| #[trigger]
            after.scheduler.running@.contains(id) ==> id == value.id
                || before.scheduler.running@.contains(id),
        after.scheduler.running@.contains(value.id) ==> value.generated() >= 1,
        after.active matches Some(id) ==> before.has(id),
        after.graphs.wf(),
        after.paged_kv_gpu_store matches Some(store) ==> store.wf() && store.block_size
            == after.paged_kv_allocator.block_size,
        after.pending_batched_kv_extract matches Some(pending) ==> pending.extract.wf(),
        after.settings.decode_tokens_per_seq >= 1,
    ensures
        after.wf(),
        forall|id: u64| #[trigger] after.has(id) <==> before.has(id),
        after.sequence(value.id) == value,
        forall|id: u64|
            before.has(id) && id != value.id ==> #[trigger] after.sequence(id) == before.sequence(
                id,
            ),
{
    lemma_update_keeps_ids(before.sequences@, i, value);
    lemma_index(before.sequences@, i);
    lemma_index(after.sequences@, i);
    assert(after.sequences@[i] == value);
    assert forall|j: int| 0 <= j < after.sequences@.len() implies (
    #[trigger] after.sequences@[j]).wf() by {
        if j != i {
            assert(before.sequences@[j].wf());
        }
    }
    assert forall|id: u64| #[trigger] after.has(id) <==> before.has(id) by {
        assert(has_id(after.sequences@, id) <==> has_id(before.sequences@, id));
    }
    assert forall|id: u64| before.has(id) && id != value.id implies #[trigger] after.sequence(id)
        == before.sequence(id) by {
        let k = index_of(before.sequences@, id);
        assert(index_of(after.sequences@, id) == k);
        assert(before.sequences@[k].id == id);
    }
    assert forall|id: u64| #[trigger] after.scheduler.running@.contains(id) implies after.sequence(
        id,
    ).generated() >= 1 by {
        assert(after.scheduler.holds(id));
        if id != value.id {
            assert(before.scheduler.running@.contains(id));
            assert(before.sequence(id).generated() >= 1);
        }
    }
}

/// Changing sequences in place, without their ids, tokens and blocks, keeps the books in order.
pub proof fn lemma_same_books_keep_wf(before: InferenceEngine, after: InferenceEngine)
    requires
        before.wf(),
        after.sequences@.len() == before.sequences@.len(),
        forall|i: int| #![trigger after.sequences@[i]]
            0 <= i < before.sequences@.len() ==> {
                &&& after.sequences@[i].id == before.sequences@[i].id
                &&& after.sequences@[i].wf()
                &&& after.sequences@[i].generated() == before.sequences@[i].generated()
                &&& after.sequences@[i].paged_kv.block_size
                    == before.sequences@[i].paged_kv.block_size
                &&& after.sequences@[i].paged_kv.blocks@ == before.sequences@[i].paged_kv.blocks@
            },
        after.paged_kv_allocator == before.paged_kv_allocator,
        after.scheduler == before.scheduler,
        after.active matches Some(id) ==> before.has(id),
        after.graphs.wf(),
        after.paged_kv_gpu_store matches Some(store) ==> store.wf() && store.block_size
            == after.paged_kv_allocator.block_size,
        after.pending_batched_kv_extract matches Some(pending) ==> pending.extract.wf(),
        after.settings == before.settings,
    ensures
        after.wf(),
        forall|id: u64| #[trigger] after.has(id) <==> before.has(id),
        forall|id: u64|
            before.has(id) ==> #[trigger] index_of(after.sequences@, id) == index_of(
                before.sequences@,
                id,
            ),
{
    lemma_same_ids_same_places(before.sequences@, after.sequences@);
    assert forall|id: u64| #[trigger] after.has(id) <==> before.has(id) by {
        assert(has_id(after.sequences@, id) <==> has_id(before.sequences@, id));
    }
    assert forall|id: u64| #[trigger] after.scheduler.running@.contains(id) implies after.sequence(
        id,
    ).generated() >= 1 by {
        assert(before.scheduler.holds(id));
        assert(before.sequence(id).generated() >= 1);
        let k = index_of(before.sequences@, id);
        assert(index_of(after.sequences@, id) == k);
        assert(0 <= k < before.sequences@.len());
    }
    let old_tables = page_tables(before.sequences@);
    let new_tables = page_tables(after.sequences@);
    assert forall|i: int| #![trigger new_tables[i]] 0 <= i < old_tables.len() implies {
        &&& new_tables[i].wf()
        &&& new_tables[i].block_size == old_tables[i].block_size
        &&& new_tables[i].blocks@ == old_tables[i].blocks@
    } by {
        assert(after.sequences@[i].wf());
    }
    ownership::lemma_same_blocks_stay_partitioned(
        before.paged_kv_allocator,
        old_tables,
        new_tables,
    );
}

/// Lists with the same ids in the same order have every id in the same place.
pub proof fn lemma_same_ids_same_places(before: Seq<Sequence>, after: Seq<Sequence>)
    requires
        unique_ids(before),
        after.len() == before.len(),
        forall|i: int| #![trigger after[i]]
            0 <= i < before.len() ==> after[i].id == before[i].id,
    ensures
        unique_ids(after),
        forall|id: u64| #[trigger] has_id(after, id) <==> has_id(before, id),
        forall|id: u64|
            has_id(before, id) ==> #[trigger] index_of(after, id) == index_of(before, id),
{
    assert forall|a: int, b: int| 0 <= a < b < after.len() implies (#[trigger] after[a]).id != (
    #[trigger] after[b]).id by {
        assert(before[a].id != before[b].id);
    }
    assert forall|id: u64| #[trigger] has_id(after, id) <==> has_id(before, id) by {
        if has_id(after, id) {
            let k = index_of(after, id);
            assert(before[k].id == id);
        }
        if has_id(before, id) {
            let k = index_of(before, id);
            assert(after[k].id == id);
        }
    }
    assert forall|id: u64| has_id(before, id) implies #[trigger] index_of(after, id) == index_of(
        before,
        id,
    ) by {
        let k = index_of(before, id);
        assert(after[k].id == id);
        lemma_index(after, k);
    }
}

impl InferenceEngine {
    /// Some sequence has this id.
    pub open spec fn has(&self, id: u64) -> bool {
        has_id(self.sequences@, id)
    }

    /// The sequence with this id.
    pub open spec fn sequence(&self, id: u64) -> Sequence {
        self.sequences@[index_of(self.sequences@, id)]
    }

    /// The books agree with each other: sequences are in order and have ids of their own, every
    /// page belongs to one of them or is free, only sequences that are there are queued or
    /// active, and those that run have generated something.
    pub open spec fn wf(&self) -> bool {
        &&& self.scheduler.wf()
        &&& unique_ids(self.sequences@)
        &&& forall|i: int| 0 <= i < self.sequences@.len() ==> (#[trigger] self.sequences@[i]).wf()
        &&& ownership::pages_partitioned(self.paged_kv_allocator, page_tables(self.sequences@))
        &&& self.paged_kv_allocator.balanced()
        &&& self.paged_kv_allocator.spare(0)
        &&& forall|id: u64| #[trigger] self.scheduler.holds(id) ==> self.has(id)
        &&& forall|id: u64| #[trigger]
            self.scheduler.running@.contains(id) ==> self.sequence(id).generated() >= 1
        &&& self.active matches Some(id) ==> self.has(id)
        &&& self.graphs.wf()
        &&& self.paged_kv_gpu_store matches Some(store) ==> store.wf() && store.block_size
            == self.paged_kv_allocator.block_size
        &&& self.pending_batched_kv_extract matches Some(pending) ==> pending.extract.wf()
        &&& self.settings.decode_tokens_per_seq >= 1
    }

    /// An engine without sequences.
    pub fn new(
        model: &ModelTraits,
        max_concurrent: usize,
        decode_tokens_per_seq: usize,
        memory_config: MemoryConfig,
        env: &EngineEnv<'_>,
    ) -> (result: Self)
        ensures
            result.wf(),
            result.settings.follow(*model, max_concurrent, decode_tokens_per_seq, *env),
            result.memory_config == memory_config,
            result.sequences@.len() == 0,
            result.scheduler.waiting@.len() == 0,
            result.scheduler.running@.len() == 0,
            result.scheduler.max_running == result.settings.max_concurrent,
            result.scheduler.effective_max_running is None,
            result.active is None,
            result.stats.paged_kv_block_size.value == result.settings.paged_kv_block_size,
            (EngineStats {
                paged_kv_block_size: Counter { value: 0 },
                ..result.stats
            }).all_zero(),
            result.paged_kv_allocator.block_size == result.settings.paged_kv_block_size,
            result.paged_kv_allocator.layout == layout_of(*model),
            result.paged_kv_allocator.live_pages == 0,
            result.paged_kv_allocator.total_alloc_pages == 0,
            result.paged_kv_allocator.total_reused_pages == 0,
            match result.paged_kv_gpu_store {
                Some(store) => {
                    &&& result.settings.paged_kv_native_append
                    &&& config::pages_on_device(*model)
                    &&& store.layout == layout_of(*model)
                    &&& store.dtype == model.dtype
                    &&& store.device == model.device
                    &&& store.pages is None
                },
                None => !(result.settings.paged_kv_native_append && config::pages_on_device(
                    *model,
                )),
            },
            result.tracked_kv_bytes == 0,
            result.eviction_cooldown == 0,
            result.step_counter == 0,
            result.graphs.workspace_generation == model.workspace_generation,
            result.graphs.entries@.len() == 0,
            result.graphs.poisoned@.len() == 0,
            result.pending_batched_kv_extract is None,
    {
        let settings = EngineSettings::from_env(model, max_concurrent, decode_tokens_per_seq, env);
        let layout = match model.kv_layout {
            Some(layout) => layout,
            None => PagedKvLayout {
                num_layers: model.num_layers,
                num_kv_heads: 0,
                head_dim: 0,
                dtype_size_bytes: 0,
            },
        };
        let block_size: usize = settings.paged_kv_block_size;
        let paged_kv_allocator = PagedKvAllocator::new(block_size, layout);
        let on_device = model.device.is_cuda() && tensors::is_bf16(model.dtype);
        let paged_kv_gpu_store = if settings.paged_kv_native_append && on_device {
            Some(PagedKvGpuPageStore::new(block_size, layout, model.dtype, &model.device))
        } else {
            None
        };
        let mut stats = EngineStats::new();
        stats.paged_kv_block_size.store(block_size as u64);
        let scheduler = Scheduler::new(settings.max_concurrent);
        let sequences: Vec<Sequence> = Vec::new();
        proof {
            ownership::law_new_allocator_partitions(
                paged_kv_allocator,
                page_tables(sequences@),
            );
        }
        InferenceEngine {
            settings,
            memory_config,
            sequences,
            scheduler,
            active: None,
            stats,
            paged_kv_allocator,
            paged_kv_gpu_store,
            tracked_kv_bytes: 0,
            eviction_cooldown: 0,
            step_counter: 0,
            graphs: CudaGraphCache::new(model.workspace_generation),
            pending_batched_kv_extract: None,
        }
    }

    /// Where the sequence with this id stands.
    pub fn find(&self, id: u64) -> (result: Option<usize>)
        requires
            unique_ids(self.sequences@),
        ensures
            match result {
                Some(i) => {
                    &&& self.has(id)
                    &&& i < self.sequences@.len()
                    &&& i == index_of(self.sequences@, id)
                    &&& self.sequences@[i as int].id == id
                },
                None => !self.has(id),
            },
    {
        let mut i: usize = 0;
        while i < self.sequences.len()
            invariant
                i <= self.sequences@.len(),
                unique_ids(self.sequences@),
                forall|j: int| 0 <= j < i ==> (#[trigger] self.sequences@[j]).id != id,
            decreases self.sequences@.len() - i,
        {
            if self.sequences[i].id == id {
                proof {
                    lemma_index(self.sequences@, i as int);
                }
                return Some(i);
            }
            i = i + 1;
        }
        None
    }
}

/// The layout of a model's KV cache; without values where the model names none.
pub open spec fn layout_of(model: ModelTraits) -> PagedKvLayout {
    match model.kv_layout {
        Some(layout) => layout,
        None => PagedKvLayout {
            num_layers: model.num_layers,
            num_kv_heads: 0,
            head_dim: 0,
            dtype_size_bytes: 0,
        },
    }
}

} // verus!
