//! Keeps page tables, pages and their statistics in step with the sequences.
use super::sequence::Sequence;
use super::state::{self, InferenceEngine};
use crate::arith;
use crate::memory;
use crate::paged_kv::allocator;
use crate::paged_kv::ownership;
use crate::paged_kv::{
    PagedKvAllocator, PagedKvGpuPageStore, PagedKvLayout, PagedKvSequence, PagedKvUpdate,
};
use crate::stats::{Counter, EngineStats};
use crate::tensors;
use vstd::prelude::*;

verus! {

/// Token places in the blocks of a sequence.
pub open spec fn reserved_tokens(table: PagedKvSequence) -> int {
    tensors::capped(table.blocks@.len() * table.block_size)
}

/// Token places that hold nothing.
pub open spec fn fragment_tokens(table: PagedKvSequence) -> int {
    memory::less(reserved_tokens(table), table.token_len as int)
}

/// Tokens in pages, all sequences together.
pub open spec fn live_token_total(sequences: Seq<Sequence>) -> int
    decreases sequences.len(),
{
    if sequences.len() == 0 {
        0
    } else {
        live_token_total(sequences.drop_last()) + sequences.last().paged_kv.token_len
    }
}

/// Token places, all sequences together.
pub open spec fn reserved_token_total(sequences: Seq<Sequence>) -> int
    decreases sequences.len(),
{
    if sequences.len() == 0 {
        0
    } else {
        reserved_token_total(sequences.drop_last()) + reserved_tokens(sequences.last().paged_kv)
    }
}

/// Empty token places, all sequences together.
pub open spec fn fragment_token_total(sequences: Seq<Sequence>) -> int
    decreases sequences.len(),
{
    if sequences.len() == 0 {
        0
    } else {
        fragment_token_total(sequences.drop_last()) + fragment_tokens(sequences.last().paged_kv)
    }
}

/// A counter with this value, or the largest one.
pub open spec fn shown(value: int) -> Counter {
    Counter { value: tensors::capped(value) as u64 }
}

/// `stats` with every figure on pages brought up to date.
pub open spec fn refreshed(
    stats: EngineStats,
    allocator: PagedKvAllocator,
    sequences: Seq<Sequence>,
    store: Option<PagedKvGpuPageStore>,
) -> EngineStats {
    EngineStats {
        paged_kv_block_size: shown(allocator.block_size as int),
        paged_kv_live_pages: shown(allocator.live_pages as int),
        paged_kv_free_pages: shown(allocator.free_pages@.len() as int),
        paged_kv_total_alloc_pages: shown(allocator.total_alloc_pages as int),
        paged_kv_total_reused_pages: shown(allocator.total_reused_pages as int),
        paged_kv_total_freed_pages: shown(allocator.total_freed_pages as int),
        paged_kv_live_tokens: shown(live_token_total(sequences)),
        paged_kv_reserved_tokens: shown(reserved_token_total(sequences)),
        paged_kv_fragment_tokens: shown(fragment_token_total(sequences)),
        paged_kv_reserved_bytes: shown(
            allocator.live_pages * allocator.layout.block_bytes(allocator.block_size as int),
        ),
        paged_kv_gpu_capacity_pages: match store {
            Some(store) => shown(store.capacity_pages as int),
            None => shown(0),
        },
        paged_kv_gpu_capacity_bytes: match store {
            Some(store) => shown(
                store.capacity_pages * store.layout.block_bytes(store.block_size as int),
            ),
            None => shown(0),
        },
        ..stats
    }
}

/// Bytes of `pages` pages, at most the largest `u64`.
fn page_bytes(layout: &PagedKvLayout, block_size: usize, pages: u64) -> (result: u64)
    ensures
        result == tensors::capped(pages * layout.block_bytes(block_size as int)),
{
    let layers: u64 = layout.num_layers as u64;
    let heads: u64 = layout.num_kv_heads as u64;
    let dim: u64 = layout.head_dim as u64;
    let size: u64 = layout.dtype_size_bytes as u64;
    let a: u64 = tensors::capped_mul(layers, 2);
    let b: u64 = tensors::capped_mul(a, heads);
    let c: u64 = tensors::capped_mul(b, block_size as u64);
    let d: u64 = tensors::capped_mul(c, dim);
    let e: u64 = tensors::capped_mul(d, size);
    let f: u64 = tensors::capped_mul(e, pages);
    proof {
        let ea = layout.num_layers * 2;
        let eb = ea * layout.num_kv_heads;
        let ec = eb * block_size;
        let ed = ec * layout.head_dim;
        let ee = ed * layout.dtype_size_bytes;
        tensors::lemma_capped_factor(ea, layout.num_kv_heads as int);
        tensors::lemma_capped_factor(eb, block_size as int);
        tensors::lemma_capped_factor(ec, layout.head_dim as int);
        tensors::lemma_capped_factor(ed, layout.dtype_size_bytes as int);
        tensors::lemma_capped_factor(ee, pages as int);
        assert(ee == layout.block_bytes(block_size as int));
        assert(ee * pages == pages * ee) by (nonlinear_arith);
    }
    f
}

proof fn lemma_totals_nonnegative(sequences: Seq<Sequence>)
    ensures
        live_token_total(sequences) >= 0,
        reserved_token_total(sequences) >= 0,
        fragment_token_total(sequences) >= 0,
    decreases sequences.len(),
{
    if sequences.len() > 0 {
        lemma_totals_nonnegative(sequences.drop_last());
        let table = sequences.last().paged_kv;
        assert(table.blocks@.len() * table.block_size >= 0) by (nonlinear_arith);
    }
}

impl InferenceEngine {
    /// Brings the figures on pages up to date.
    pub fn refresh_paged_kv_stats(&mut self)
        ensures
            *final(self) == (InferenceEngine {
                stats: refreshed(
                    old(self).stats,
                    old(self).paged_kv_allocator,
                    old(self).sequences@,
                    old(self).paged_kv_gpu_store,
                ),
                ..*old(self)
            }),
    {
        let mut live: u64 = 0;
        let mut reserved: u64 = 0;
        let mut fragment: u64 = 0;
        let mut i: usize = 0;
        let ghost all = self.sequences@;
        while i < self.sequences.len()
            invariant
                i <= all.len(),
                *self == *old(self),
                all == self.sequences@,
                live == tensors::capped(live_token_total(all.take(i as int))),
                reserved == tensors::capped(reserved_token_total(all.take(i as int))),
                fragment == tensors::capped(fragment_token_total(all.take(i as int))),
            decreases all.len() - i,
        {
            assert(all.take(i + 1).drop_last() =~= all.take(i as int));
            let table = &self.sequences[i].paged_kv;
            let places: u64 = tensors::capped_mul(
                table.blocks.len() as u64,
                table.block_size as u64,
            );
            proof {
                lemma_totals_nonnegative(all.take(i as int));
                assert(table.blocks@.len() * table.block_size >= 0) by (nonlinear_arith);
            }
            live = live.saturating_add(table.token_len as u64);
            reserved = reserved.saturating_add(places);
            fragment = fragment.saturating_add(places.saturating_sub(table.token_len as u64));
            i = i + 1;
        }
        assert(all.take(i as int) =~= all);
        let allocator = &self.paged_kv_allocator;
        let reserved_bytes: u64 = page_bytes(
            &allocator.layout,
            allocator.block_size,
            allocator.live_pages,
        );
        let (capacity_pages, capacity_bytes) = match &self.paged_kv_gpu_store {
            Some(store) => (
                store.capacity_pages as u64,
                page_bytes(&store.layout, store.block_size, store.capacity_pages as u64),
            ),
            None => (0u64, 0u64),
        };
        let block_size: u64 = allocator.block_size as u64;
        let live_pages: u64 = allocator.live_pages;
        let free_pages: u64 = allocator.free_pages.len() as u64;
        let total_alloc_pages: u64 = allocator.total_alloc_pages;
        let total_reused_pages: u64 = allocator.total_reused_pages;
        let total_freed_pages: u64 = allocator.total_freed_pages;
        self.stats.paged_kv_block_size.store(block_size);
        self.stats.paged_kv_live_pages.store(live_pages);
        self.stats.paged_kv_free_pages.store(free_pages);
        self.stats.paged_kv_total_alloc_pages.store(total_alloc_pages);
        self.stats.paged_kv_total_reused_pages.store(total_reused_pages);
        self.stats.paged_kv_total_freed_pages.store(total_freed_pages);
        self.stats.paged_kv_live_tokens.store(live);
        self.stats.paged_kv_reserved_tokens.store(reserved);
        self.stats.paged_kv_fragment_tokens.store(fragment);
        self.stats.paged_kv_reserved_bytes.store(reserved_bytes);
        self.stats.paged_kv_gpu_capacity_pages.store(capacity_pages);
        self.stats.paged_kv_gpu_capacity_bytes.store(capacity_bytes);
    }
}

/// `after` is `before` with the page table of sequence `id` grown or cut to `token_len` tokens;
/// nothing happens without such a sequence.
pub open spec fn synced(
    before: InferenceEngine,
    after: InferenceEngine,
    id: u64,
    token_len: usize,
) -> bool {
    if !before.has(id) {
        after == before
    } else {
        let i = state::index_of(before.sequences@, id);
        let own = before.sequences@[i];
        let allocator = before.paged_kv_allocator;
        let missing = allocator.missing_pages(own.paged_kv, token_len as int);
        let table = after.sequences@[i].paged_kv;
        &&& after.paged_kv_allocator.acquired_from(allocator, missing)
        &&& allocator.grown(own.paged_kv, token_len, table)
        &&& after.sequences@ == before.sequences@.update(i, Sequence { paged_kv: table, ..own })
        &&& after.stats == refreshed(
            EngineStats {
                total_paged_kv_metadata_syncs: before.stats.total_paged_kv_metadata_syncs.plus(1),
                total_paged_kv_new_pages: before.stats.total_paged_kv_new_pages.plus(
                    missing - allocator.reused_of(missing),
                ),
                total_paged_kv_reused_pages: before.stats.total_paged_kv_reused_pages.plus(
                    allocator.reused_of(missing),
                ),
                ..before.stats
            },
            after.paged_kv_allocator,
            after.sequences@,
            after.paged_kv_gpu_store,
        )
        &&& after == (InferenceEngine {
            sequences: after.sequences,
            paged_kv_allocator: after.paged_kv_allocator,
            stats: after.stats,
            ..before
        })
    }
}

/// No more pages are missing than there are tokens.
pub proof fn lemma_missing_at_most_tokens(
    allocator: PagedKvAllocator,
    table: PagedKvSequence,
    token_len: int,
)
    requires
        allocator.wf(),
        token_len >= 0,
    ensures
        0 <= allocator.missing_pages(table, token_len) <= token_len,
{
    arith::lemma_ceil_div(token_len, allocator.block_size as int);
}

impl InferenceEngine {
    /// Whether the page counters can take pages for `tokens` more tokens.
    pub fn page_room(&self, tokens: u64) -> (result: bool)
        ensures
            result == self.paged_kv_allocator.spare(tokens as int),
    {
        let allocator = &self.paged_kv_allocator;
        let used: u128 = (allocator.total_alloc_pages as u128) + (
        allocator.total_reused_pages as u128);
        used + (tokens as u128) < u64::MAX as u128
    }

    /// Makes the page table of a sequence cover `token_len` tokens.
    pub fn sync_paged_kv_for_sequence(&mut self, id: u64, token_len: usize)
        requires
            old(self).wf(),
            old(self).paged_kv_allocator.spare(token_len as int),
        ensures
            final(self).wf(),
            synced(*old(self), *final(self), id, token_len),
    {
        let ghost before = *self;
        match self.find(id) {
            None => {},
            Some(i) => {
                proof {
                    assert(before.sequences@[i as int].wf());
                    lemma_missing_at_most_tokens(
                        before.paged_kv_allocator,
                        before.sequences@[i as int].paged_kv,
                        token_len as int,
                    );
                    allocator::lemma_spare_is_room(
                        before.paged_kv_allocator,
                        before.paged_kv_allocator.missing_pages(
                            before.sequences@[i as int].paged_kv,
                            token_len as int,
                        ),
                    );
                }
                let seq: &mut Sequence = &mut self.sequences[i];
                let update: PagedKvUpdate = self.paged_kv_allocator.ensure_token_len(
                    &mut seq.paged_kv,
                    token_len,
                );
                self.stats.total_paged_kv_metadata_syncs.fetch_add(1);
                self.stats.total_paged_kv_new_pages.fetch_add(update.allocated_pages);
                self.stats.total_paged_kv_reused_pages.fetch_add(update.reused_pages);
                self.refresh_paged_kv_stats();
                proof {
                    let value = self.sequences@[i as int];
                    assert(self.sequences@ =~= before.sequences@.update(i as int, value));
                    ownership::law_growth_keeps_partition(
                        before.paged_kv_allocator,
                        state::page_tables(before.sequences@),
                        i as int,
                        token_len,
                        self.paged_kv_allocator,
                        value.paged_kv,
                    );
                    state::lemma_touch_keeps_wf(before, *self, i as int, value);
                }
            },
        }
    }
}

/// The last page in use goes when sequence `id` gives its pages back.
pub open spec fn goes_idle(before: InferenceEngine, id: u64) -> bool {
    before.paged_kv_allocator.live_pages == before.sequence(id).paged_kv.blocks@.len()
}

/// Pages that a device has to set to zero when sequence `id` gives its pages back: none where
/// all storage goes.
pub open spec fn pages_to_zero(before: InferenceEngine, id: u64) -> Seq<u32> {
    match before.paged_kv_gpu_store {
        Some(store) => if goes_idle(before, id) || store.pages is None || !tensors::dtype_is_bf16(
            store.dtype,
        ) {
            Seq::empty()
        } else {
            before.sequence(id).paged_kv.page_ids().filter(
                |page: u64| store.zeroable(page),
            ).map_values(|page: u64| page as u32)
        },
        None => Seq::empty(),
    }
}

/// `after` is `before` with the pages of sequence `id` given back; nothing happens without such
/// a sequence. With the last page in use goes all storage and the free list.
pub open spec fn released(before: InferenceEngine, after: InferenceEngine, id: u64) -> bool {
    if !before.has(id) {
        after == before
    } else {
        let i = state::index_of(before.sequences@, id);
        let own = before.sequences@[i];
        let count = own.paged_kv.blocks@.len() as int;
        let idle = goes_idle(before, id);
        let from = before.paged_kv_allocator;
        let to = after.paged_kv_allocator;
        let free = from.free_pages@ + own.paged_kv.page_ids();
        let dropped = if idle {
            free.len() as int
        } else {
            0
        };
        let table = after.sequences@[i].paged_kv;
        &&& to == (PagedKvAllocator {
            free_pages: to.free_pages,
            next_page_id: if idle {
                1
            } else {
                from.next_page_id
            },
            live_pages: (from.live_pages - count) as u64,
            total_freed_pages: (from.total_freed_pages + count) as u64,
            ..from
        })
        &&& to.free_pages@ == if idle {
            Seq::empty()
        } else {
            free
        }
        &&& table.wf()
        &&& table.block_size == own.paged_kv.block_size
        &&& table.token_len == 0
        &&& table.gpu_resident_token_len == 0
        &&& table.blocks@.len() == 0
        &&& after.sequences@ == before.sequences@.update(i, Sequence { paged_kv: table, ..own })
        &&& after.paged_kv_gpu_store == match before.paged_kv_gpu_store {
            Some(store) => if idle {
                Some(PagedKvGpuPageStore { pages: None, capacity_pages: 0, ..store })
            } else {
                Some(store)
            },
            None => None,
        }
        &&& after.stats == refreshed(
            EngineStats {
                total_paged_kv_idle_resets: before.stats.total_paged_kv_idle_resets.plus(
                    if dropped > 0 {
                        1
                    } else {
                        0
                    },
                ),
                total_paged_kv_idle_reset_pages: before.stats.total_paged_kv_idle_reset_pages.plus(
                    dropped,
                ),
                total_paged_kv_released_pages: before.stats.total_paged_kv_released_pages.plus(
                    count,
                ),
                ..before.stats
            },
            to,
            after.sequences@,
            after.paged_kv_gpu_store,
        )
        &&& after == (InferenceEngine {
            sequences: after.sequences,
            paged_kv_allocator: to,
            paged_kv_gpu_store: after.paged_kv_gpu_store,
            stats: after.stats,
            ..before
        })
    }
}

/// Page ids of a block list.
fn ids_of(table: &PagedKvSequence) -> (result: Vec<u64>)
    ensures
        result@ == table.page_ids(),
{
    let mut ids: Vec<u64> = Vec::new();
    let mut i: usize = 0;
    while i < table.blocks.len()
        invariant
            i <= table.blocks@.len(),
            ids@ =~= table.page_ids().take(i as int),
        decreases table.blocks@.len() - i,
    {
        ids.push(table.blocks[i].id);
        i = i + 1;
    }
    assert(table.page_ids().take(i as int) =~= table.page_ids());
    ids
}

impl InferenceEngine {
    /// Takes the pages of a sequence back. The result are the pages that have to be set to zero
    /// on the device.
    pub fn release_paged_kv_for_sequence(&mut self, id: u64) -> (result: Vec<u32>)
        requires
            old(self).wf(),
        ensures
            final(self).wf(),
            released(*old(self), *final(self), id),
            result@ == if old(self).has(id) {
                pages_to_zero(*old(self), id)
            } else {
                Seq::empty()
            },
    {
        let ghost before = *self;
        let mut zero: Vec<u32> = Vec::new();
        match self.find(id) {
            None => {},
            Some(i) => {
                proof {
                    assert(before.sequences@[i as int].wf());
                    ownership::lemma_own_blocks_are_live(
                        state::page_tables(before.sequences@),
                        i as int,
                    );
                }
                let page_ids = ids_of(&self.sequences[i].paged_kv);
                let seq: &mut Sequence = &mut self.sequences[i];
                let count: u64 = self.paged_kv_allocator.release_sequence(&mut seq.paged_kv);
                let ghost value = self.sequences@[i as int];
                let ghost tables = state::page_tables(before.sequences@).update(
                    i as int,
                    value.paged_kv,
                );
                proof {
                    ownership::law_release_keeps_partition(
                        before.paged_kv_allocator,
                        state::page_tables(before.sequences@),
                        i as int,
                        self.paged_kv_allocator,
                        value.paged_kv,
                    );
                }
                if self.paged_kv_allocator.live_pages == 0 {
                    let ghost middle = self.paged_kv_allocator;
                    match self.paged_kv_gpu_store.as_mut() {
                        Some(store) => {
                            store.release_cached_storage();
                        },
                        None => {},
                    }
                    let dropped: u64 = self.paged_kv_allocator.reset_when_idle();
                    if dropped > 0 {
                        self.stats.total_paged_kv_idle_resets.fetch_add(1);
                        self.stats.total_paged_kv_idle_reset_pages.fetch_add(dropped);
                    }
                    proof {
                        ownership::law_idle_reset_keeps_partition(
                            middle,
                            tables,
                            self.paged_kv_allocator,
                        );
                    }
                } else {
                    match &self.paged_kv_gpu_store {
                        Some(store) => {
                            zero = store.zero_pages(page_ids.as_slice());
                        },
                        None => {},
                    }
                }
                self.stats.total_paged_kv_released_pages.fetch_add(count);
                self.refresh_paged_kv_stats();
                proof {
                    assert(self.sequences@ =~= before.sequences@.update(i as int, value));
                    if goes_idle(before, id) {
                        assert(self.paged_kv_allocator.free_pages@ =~= Seq::empty());
                    }
                    state::lemma_touch_keeps_wf(before, *self, i as int, value);
                }
            },
        }
        zero
    }
}

/// Token places are taken or empty, and there are as many as the pages have.
pub proof fn law_places_are_taken_or_empty(sequences: Seq<Sequence>)
    requires
        forall|i: int| #![trigger sequences[i]]
            0 <= i < sequences.len() ==> {
                let table = sequences[i].paged_kv;
                &&& table.wf()
                &&& table.blocks@.len() * table.block_size <= u64::MAX
            },
    ensures
        live_token_total(sequences) + fragment_token_total(sequences) == reserved_token_total(
            sequences,
        ),
        sequences.len() > 0 ==> reserved_token_total(sequences) == reserved_token_total(
            sequences.drop_last(),
        ) + sequences.last().paged_kv.blocks@.len() * sequences.last().paged_kv.block_size,
    decreases sequences.len(),
{
    if sequences.len() > 0 {
        let head = sequences.drop_last();
        assert forall|i: int| #![trigger head[i]] 0 <= i < head.len() implies {
            let table = head[i].paged_kv;
            &&& table.wf()
            &&& table.blocks@.len() * table.block_size <= u64::MAX
        } by {
            assert(sequences[i] == head[i]);
        }
        law_places_are_taken_or_empty(head);
        let table = sequences[sequences.len() - 1].paged_kv;
        assert(table.wf());
        let need = arith::ceil_div(table.token_len as int, table.block_size as int);
        arith::lemma_ceil_div(table.token_len as int, table.block_size as int);
        assert(table.blocks@.len() * table.block_size >= need * table.block_size)
            by (nonlinear_arith)
            requires
                table.blocks@.len() >= need,
                table.block_size >= 0,
        ;
    }
}

/// A sequence that gives its pages back has them all on the free list, after those that were there,
/// unless it was the last to have any: then the list and all storage go, and numbers start anew.
pub proof fn law_released_pages_are_free(
    before: InferenceEngine,
    after: InferenceEngine,
    id: u64,
    page: u64,
)
    requires
        before.wf(),
        before.has(id),
        released(before, after, id),
        before.sequence(id).paged_kv.page_ids().contains(page),
    ensures
        before.paged_kv_allocator.live_pages > before.sequence(id).paged_kv.blocks@.len()
            ==> after.paged_kv_allocator.free_pages@.contains(page)
            && after.paged_kv_allocator.next_page_id == before.paged_kv_allocator.next_page_id,
        before.paged_kv_allocator.live_pages == before.sequence(id).paged_kv.blocks@.len()
            ==> after.paged_kv_allocator.free_pages@.len() == 0
            && after.paged_kv_allocator.next_page_id == 1 && (
        after.paged_kv_gpu_store matches Some(store) ==> store.pages is None),
        after.scheduler == before.scheduler,
{
    let own = before.sequence(id).paged_kv.page_ids();
    let free = before.paged_kv_allocator.free_pages@;
    let k = own.index_of(page);
    assert((free + own)[free.len() + k] == page);
}

proof fn lemma_kept_is_from(ids: Seq<u64>, keep: spec_fn(u64) -> bool, k: int)
    requires
        0 <= k < ids.filter(keep).len(),
    ensures
        ids.contains(ids.filter(keep)[k]),
        keep(ids.filter(keep)[k]),
    decreases ids.len(),
{
    reveal(Seq::filter);
    let head = ids.drop_last();
    if k < head.filter(keep).len() {
        lemma_kept_is_from(head, keep, k);
        let i = head.index_of(head.filter(keep)[k]);
        assert(ids[i] == ids.filter(keep)[k]);
    } else {
        assert(ids[ids.len() - 1] == ids.filter(keep)[k]);
    }
}

/// The pages that a device has to set to zero are pages of the sequence that gives them back, all
/// that the device has, and no other's; none at all where all storage goes.
pub proof fn law_only_own_pages_are_zeroed(engine: InferenceEngine, id: u64, k: int, z: int)
    requires
        engine.wf(),
        engine.has(id),
        0 <= k < engine.sequence(id).paged_kv.blocks@.len(),
        engine.paged_kv_gpu_store is Some,
    ensures
        ({
            let zero = pages_to_zero(engine, id);
            let store = engine.paged_kv_gpu_store->Some_0;
            let page = engine.sequence(id).paged_kv.blocks@[k].id;
            let others_live = engine.paged_kv_allocator.live_pages > engine.sequence(
                id,
            ).paged_kv.blocks@.len();
            &&& others_live && store.pages is Some && tensors::dtype_is_bf16(store.dtype) && 0
                < page <= store.capacity_pages && page <= u32::MAX ==> zero.contains(page as u32)
            &&& engine.paged_kv_allocator.live_pages == engine.sequence(id).paged_kv.blocks@.len()
                ==> zero.len() == 0
            &&& 0 <= z < zero.len() ==> 0 < zero[z] <= store.capacity_pages && exists|j: int|
                0 <= j < engine.sequence(id).paged_kv.blocks@.len() && (
                #[trigger] engine.sequence(id).paged_kv.blocks@[j]).id == zero[z]
        }),
{
    let zero = pages_to_zero(engine, id);
    let store = engine.paged_kv_gpu_store->Some_0;
    let own = engine.sequence(id).paged_kv.page_ids();
    let keep = |page: u64| store.zeroable(page);
    let kept = own.filter(keep);
    if !(goes_idle(engine, id) || store.pages is None || !tensors::dtype_is_bf16(store.dtype)) {
        assert(zero == kept.map_values(|page: u64| page as u32));
        if store.zeroable(own[k]) {
            own.lemma_filter_contains(keep, k);
            let i = kept.index_of(own[k]);
            assert(zero[i] == own[k] as u32);
        }
        if 0 <= z < zero.len() {
            lemma_kept_is_from(own, keep, z);
            let j = own.index_of(kept[z]);
            assert(engine.sequence(id).paged_kv.blocks@[j].id == zero[z]);
        }
    }
}

} // verus!
