//! What of a batch lives in device pages, and what follows from it.
use super::paged;
use super::rows;
use super::sequence::Sequence;
use super::state::{self, InferenceEngine};
use crate::paged_kv::plan;
use crate::paged_kv::{
    PagedKvBatchPageTable, PagedKvGpuPageStore, PagedKvSequence, PagedKvStorageError,
};
use crate::stats::EngineStats;
use crate::tensors;
use candle_core::Tensor;
use vstd::prelude::*;

verus! {

/// Everything that page-backed decode attention reads.
#[derive(Debug)]
pub struct PagedAttentionPlan {
    pub pages: Tensor,
    pub table: PagedKvBatchPageTable,
    pub block_size: usize,
    pub num_layers: usize,
}

/// Nothing of the sequence is on the device.
pub open spec fn off_device(sequence: Sequence) -> Sequence {
    Sequence {
        paged_kv: PagedKvSequence { gpu_resident_token_len: 0, ..sequence.paged_kv },
        ..sequence
    }
}

impl InferenceEngine {
    /// Keys and values are kept in device pages.
    pub open spec fn pages_in_use(&self) -> bool {
        self.settings.paged_kv_native_append && self.paged_kv_gpu_store is Some
    }

    /// Device memory is so close to its limit that no more is to be copied into pages.
    pub open spec fn under_pressure(&self, gpu_used: u64) -> bool {
        &&& self.pages_in_use()
        &&& self.memory_config.gpu_memory_limit_bytes > 0
        &&& self.settings.paged_kv_pressure_reserve_bytes > 0
        &&& gpu_used > 0
        &&& tensors::capped(gpu_used + self.settings.paged_kv_pressure_reserve_bytes)
            > self.memory_config.gpu_memory_limit_bytes
    }

    /// Whether copies into pages are to be skipped, with `gpu_used` bytes of the device in use.
    /// Where they are, page storage is given up and no sequence counts as being in it.
    pub fn skip_paged_kv_gpu_copy_for_pressure(&mut self, gpu_used: u64) -> (result: bool)
        requires
            old(self).wf(),
        ensures
            final(self).wf(),
            result == old(self).under_pressure(gpu_used),
            !result ==> *final(self) == *old(self),
            result ==> relieved(*old(self), *final(self)),
    {
        let ghost before = *self;
        if !self.settings.paged_kv_native_append || self.paged_kv_gpu_store.is_none() {
            return false;
        }
        let limit: u64 = self.memory_config.gpu_memory_limit_bytes;
        let reserve: u64 = self.settings.paged_kv_pressure_reserve_bytes;
        if limit == 0 || reserve == 0 {
            return false;
        }
        if gpu_used == 0 || gpu_used.saturating_add(reserve) <= limit {
            return false;
        }
        let freed: usize = match self.paged_kv_gpu_store.as_mut() {
            Some(store) => store.release_cached_storage(),
            None => 0,
        };
        let ghost store = self.paged_kv_gpu_store;
        let mut i: usize = 0;
        let ghost all = before.sequences@;
        while i < self.sequences.len()
            invariant
                i <= all.len(),
                all == before.sequences@,
                self.sequences@.len() == all.len(),
                *self == (InferenceEngine {
                    sequences: self.sequences,
                    paged_kv_gpu_store: store,
                    ..before
                }),
                forall|j: int|
                    0 <= j < i ==> #[trigger] self.sequences@[j] == off_device(all[j]),
                forall|j: int| i <= j < all.len() ==> #[trigger] self.sequences@[j] == all[j],
            decreases all.len() - i,
        {
            let ghost held = self.sequences@;
            let seq: &mut Sequence = &mut self.sequences[i];
            seq.paged_kv.mark_gpu_resident(0);
            assert(forall|j: int| 0 <= j < all.len() && j != i ==> self.sequences@[j] == held[j]);
            i = i + 1;
        }
        self.stats.total_paged_kv_pressure_skips.fetch_add(1);
        self.stats.total_paged_kv_pressure_released_pages.fetch_add(freed as u64);
        self.refresh_paged_kv_stats();
        proof {
            assert(self.sequences@ =~= Seq::new(all.len(), |k: int| off_device(all[k])));
            assert forall|k: int| #![trigger self.sequences@[k]] 0 <= k < all.len() implies {
                &&& self.sequences@[k].wf()
                &&& self.sequences@[k].id == all[k].id
            } by {
                assert(all[k].wf());
            }
            state::lemma_same_books_keep_wf(before, *self);
        }
        true
    }

    /// Sequence `id` is there and its first `tokens` tokens are on the device.
    pub open spec fn resident(&self, id: u64, tokens: int) -> bool {
        &&& self.has(id)
        &&& self.sequence(id).paged_kv.gpu_resident_token_len >= tokens
    }

    /// Of every kept row, the first `kv_lens` and `extra` more tokens are on the device.
    pub open spec fn batch_resident(
        &self,
        batch: Seq<u64>,
        kv_lens: Seq<usize>,
        extra: int,
        keep: Seq<bool>,
    ) -> bool {
        &&& batch.len() == kv_lens.len()
        &&& batch.len() == keep.len()
        &&& forall|r: int|
            0 <= r < batch.len() && #[trigger] keep[r] ==> self.resident(
                batch[r],
                kv_lens[r] + extra,
            )
    }

    fn is_resident(&self, id: u64, kv_len: usize, extra: usize) -> (result: bool)
        requires
            self.wf(),
        ensures
            result == self.resident(id, kv_len + extra),
    {
        match self.find(id) {
            Some(i) => {
                assert(self.sequences@[i as int].wf());
                let tokens: usize = self.sequences[i].paged_kv.gpu_resident_token_len();
                tokens >= extra && tokens - extra >= kv_len
            },
            None => false,
        }
    }

    /// Whether all kept rows are on the device up to `rounds_done` tokens after their past.
    pub fn paged_kv_batch_total_is_resident(
        &self,
        batch: &Vec<u64>,
        kv_lens: &Vec<usize>,
        rounds_done: usize,
        keep: &Vec<bool>,
    ) -> (result: bool)
        requires
            self.wf(),
        ensures
            result == self.batch_resident(batch@, kv_lens@, rounds_done as int, keep@),
    {
        if batch.len() != kv_lens.len() || batch.len() != keep.len() {
            return false;
        }
        let mut r: usize = 0;
        while r < batch.len()
            invariant
                r <= batch@.len(),
                self.wf(),
                batch@.len() == kv_lens@.len(),
                batch@.len() == keep@.len(),
                forall|j: int|
                    0 <= j < r && #[trigger] keep@[j] ==> self.resident(
                        batch@[j],
                        kv_lens@[j] + rounds_done,
                    ),
            decreases batch@.len() - r,
        {
            if keep[r] && !self.is_resident(batch[r], kv_lens[r], rounds_done) {
                assert(keep@[r as int]);
                return false;
            }
            r = r + 1;
        }
        true
    }

    /// Whether the past of all kept rows is on the device.
    pub fn paged_kv_batch_past_is_resident(
        &self,
        batch: &Vec<u64>,
        kv_lens: &Vec<usize>,
        keep: &Vec<bool>,
    ) -> (result: bool)
        requires
            self.wf(),
        ensures
            result == self.batch_resident(batch@, kv_lens@, 0, keep@),
    {
        self.paged_kv_batch_total_is_resident(batch, kv_lens, 0, keep)
    }

    /// Decode attention may read device pages.
    pub open spec fn attention_on(&self) -> bool {
        self.settings.paged_kv_attention && self.pages_in_use()
    }

    /// Page-backed attention is worth trying: enough rows are kept, and one of them is long
    /// enough after `round` rounds.
    pub open spec fn attention_worth_it(
        &self,
        rows: int,
        kv_lens: Seq<usize>,
        round: int,
        keep: Seq<bool>,
    ) -> bool {
        &&& self.attention_on()
        &&& rows == kv_lens.len()
        &&& rows == keep.len()
        &&& rows::alive_count(keep) >= self.settings.paged_kv_attention_min_active_rows
        &&& self.settings.paged_kv_attention_min_seq_len == 0 || exists|r: int|
            0 <= r < keep.len() && #[trigger] keep[r] && kv_lens[r] + round
                >= self.settings.paged_kv_attention_min_seq_len
    }

    pub fn should_attempt_paged_attention_for_round(
        &self,
        batch: &Vec<u64>,
        kv_lens: &Vec<usize>,
        round: usize,
        keep: &Vec<bool>,
    ) -> (result: bool)
        ensures
            result == self.attention_worth_it(
                batch@.len() as int,
                kv_lens@,
                round as int,
                keep@,
            ),
    {
        if !self.settings.paged_kv_attention || !self.settings.paged_kv_native_append
            || self.paged_kv_gpu_store.is_none() {
            return false;
        }
        if batch.len() != kv_lens.len() || batch.len() != keep.len() {
            return false;
        }
        let active: usize = rows::active_rows(keep);
        let needed: usize = self.settings.paged_kv_attention_min_seq_len;
        let mut long_enough: bool = needed == 0;
        let mut r: usize = 0;
        while r < keep.len()
            invariant
                r <= keep@.len(),
                kv_lens@.len() == keep@.len(),
                needed == self.settings.paged_kv_attention_min_seq_len,
                long_enough == (needed == 0 || exists|j: int|
                    0 <= j < r && #[trigger] keep@[j] && kv_lens@[j] + round >= needed),
            decreases keep@.len() - r,
        {
            if keep[r] && kv_lens[r].saturating_add(round) >= needed {
                assert(keep@[r as int]);
                long_enough = true;
            }
            r = r + 1;
        }
        active >= self.settings.paged_kv_attention_min_active_rows && long_enough
    }

    /// Page tables of the kept rows.
    pub open spec fn row_tables(&self, batch: Seq<u64>, keep: Seq<bool>) -> Seq<
        Option<&PagedKvSequence>,
    > {
        Seq::new(
            batch.len(),
            |r: int|
                if keep[r] {
                    Some(&self.sequence(batch[r]).paged_kv)
                } else {
                    None
                },
        )
    }

    /// The page table of every kept row covers exactly its past and `round` tokens.
    pub open spec fn tables_current(
        &self,
        batch: Seq<u64>,
        kv_lens: Seq<usize>,
        round: int,
        keep: Seq<bool>,
    ) -> bool {
        forall|r: int|
            0 <= r < batch.len() && #[trigger] keep[r] ==> self.sequence(batch[r]).paged_kv.token_len
                == kv_lens[r] + round
    }

    /// A batch attends to device pages in round `round`: it is worth trying, everything is on
    /// the device, and a page table can be built.
    pub open spec fn attends_pages(
        &self,
        batch: Seq<u64>,
        kv_lens: Seq<usize>,
        round: int,
        keep: Seq<bool>,
    ) -> bool {
        &&& self.attention_worth_it(batch.len() as int, kv_lens, round, keep)
        &&& self.batch_resident(batch, kv_lens, round, keep)
        &&& self.paged_kv_gpu_store matches Some(store) && {
            &&& store.pages is Some
            &&& self.tables_current(batch, kv_lens, round, keep)
            &&& plan::table_error(self.row_tables(batch, keep), store.block_size) is None
        }
    }

    /// A batch that should have attended to device pages does not, and that is counted.
    pub open spec fn attention_falls_back(
        &self,
        batch: Seq<u64>,
        kv_lens: Seq<usize>,
        round: int,
        keep: Seq<bool>,
    ) -> bool {
        let fits = batch.len() == kv_lens.len() && batch.len() == keep.len();
        &&& self.attention_on()
        &&& !fits || {
            &&& self.attention_worth_it(batch.len() as int, kv_lens, round, keep)
            &&& !self.attends_pages(batch, kv_lens, round, keep)
            &&& self.batch_resident(batch, kv_lens, round, keep) ==> (
            self.paged_kv_gpu_store matches Some(store) && store.pages is Some)
        }
    }

    /// Plans page-backed attention for round `round`, if the batch is fit for it.
    pub fn maybe_build_paged_attention_context(
        &mut self,
        batch: &Vec<u64>,
        kv_lens: &Vec<usize>,
        round: usize,
        keep: &Vec<bool>,
    ) -> (result: Option<PagedAttentionPlan>)
        requires
            old(self).wf(),
        ensures
            final(self).wf(),
            result is Some <==> old(self).attends_pages(batch@, kv_lens@, round as int, keep@),
            match result {
                Some(plan) => {
                    let store = old(self).paged_kv_gpu_store->Some_0;
                    &&& store.pages == Some(plan.pages)
                    &&& plan.block_size == store.block_size
                    &&& plan.num_layers == store.layout.num_layers
                    &&& plan.table.covers(
                        old(self).row_tables(batch@, keep@),
                        store.block_size as int,
                        batch@.len() as int,
                    )
                },
                None => true,
            },
            *final(self) == (InferenceEngine {
                stats: EngineStats {
                    total_paged_kv_attention_contexts: if result is Some {
                        old(self).stats.total_paged_kv_attention_contexts.plus(1)
                    } else {
                        old(self).stats.total_paged_kv_attention_contexts
                    },
                    total_paged_kv_attention_fallbacks: if old(self).attention_falls_back(
                        batch@,
                        kv_lens@,
                        round as int,
                        keep@,
                    ) {
                        old(self).stats.total_paged_kv_attention_fallbacks.plus(1)
                    } else {
                        old(self).stats.total_paged_kv_attention_fallbacks
                    },
                    ..old(self).stats
                },
                ..*old(self)
            }),
    {
        if !self.settings.paged_kv_attention || !self.settings.paged_kv_native_append
            || self.paged_kv_gpu_store.is_none() {
            return None;
        }
        if batch.len() != kv_lens.len() || batch.len() != keep.len() {
            self.stats.total_paged_kv_attention_fallbacks.fetch_add(1);
            return None;
        }
        if !self.should_attempt_paged_attention_for_round(batch, kv_lens, round, keep) {
            return None;
        }
        if !self.paged_kv_batch_total_is_resident(batch, kv_lens, round, keep) {
            self.stats.total_paged_kv_attention_fallbacks.fetch_add(1);
            return None;
        }
        let (pages, block_size, num_layers) = match &self.paged_kv_gpu_store {
            Some(store) => match store.pages() {
                Some(pages) => (pages, store.block_size, store.layout.num_layers),
                None => {
                    return None;
                },
            },
            None => {
                return None;
            },
        };
        match self.page_table_for(batch, kv_lens, round, keep, block_size) {
            Some(Ok(table)) => {
                self.stats.total_paged_kv_attention_contexts.fetch_add(1);
                Some(PagedAttentionPlan { pages, table, block_size, num_layers })
            },
            _ => {
                self.stats.total_paged_kv_attention_fallbacks.fetch_add(1);
                None
            },
        }
    }

    /// The page table of the kept rows; `None` where one of them is not current.
    fn page_table_for(
        &self,
        batch: &Vec<u64>,
        kv_lens: &Vec<usize>,
        round: usize,
        keep: &Vec<bool>,
        block_size: usize,
    ) -> (result: Option<Result<PagedKvBatchPageTable, PagedKvStorageError>>)
        requires
            self.wf(),
            self.batch_resident(batch@, kv_lens@, round as int, keep@),
        ensures
            match result {
                Some(Ok(table)) => {
                    &&& self.tables_current(batch@, kv_lens@, round as int, keep@)
                    &&& plan::table_error(self.row_tables(batch@, keep@), block_size) is None
                    &&& table.covers(
                        self.row_tables(batch@, keep@),
                        block_size as int,
                        batch@.len() as int,
                    )
                },
                Some(Err(error)) => {
                    &&& self.tables_current(batch@, kv_lens@, round as int, keep@)
                    &&& plan::table_error(self.row_tables(batch@, keep@), block_size) == Some(error)
                },
                None => !self.tables_current(batch@, kv_lens@, round as int, keep@),
            },
    {
        let mut tables: Vec<Option<&PagedKvSequence>> = Vec::new();
        let mut r: usize = 0;
        while r < batch.len()
            invariant
                r <= batch@.len(),
                self.wf(),
                self.batch_resident(batch@, kv_lens@, round as int, keep@),
                tables@ =~= self.row_tables(batch@, keep@).take(r as int),
                forall|j: int|
                    0 <= j < r && #[trigger] keep@[j] ==> self.sequence(
                        batch@[j],
                    ).paged_kv.token_len == kv_lens@[j] + round,
            decreases batch@.len() - r,
        {
            if keep[r] {
                assert(keep@[r as int]);
                match self.find(batch[r]) {
                    Some(i) => {
                        let len: usize = self.sequences[i].paged_kv.token_len();
                        if len < round || len - round != kv_lens[r] {
                            return None;
                        }
                        tables.push(Some(&self.sequences[i].paged_kv));
                    },
                    None => {
                        assert(false);
                        return None;
                    },
                }
            } else {
                tables.push(None);
            }
            r = r + 1;
        }
        assert(self.row_tables(batch@, keep@).take(r as int) =~= self.row_tables(batch@, keep@));
        assert forall|j: int| 0 <= j < tables@.len() implies match #[trigger] tables@[j] {
            Some(table) => table.block_size > 0,
            None => true,
        } by {
            if keep@[j] {
                assert(self.resident(batch@[j], kv_lens@[j] + round));
                let k = state::index_of(self.sequences@, batch@[j]);
                assert(self.sequences@[k].wf());
            }
        }
        Some(PagedKvBatchPageTable::from_optional_sequences(block_size, tables.as_slice()))
    }
}

/// `after` is `before` with page storage given up.
pub open spec fn relieved(before: InferenceEngine, after: InferenceEngine) -> bool {
    let store = before.paged_kv_gpu_store->Some_0;
    &&& after.paged_kv_gpu_store == Some(
        PagedKvGpuPageStore { pages: None, capacity_pages: 0, ..store },
    )
    &&& after.sequences@ == Seq::new(
        before.sequences@.len(),
        |i: int| off_device(before.sequences@[i]),
    )
    &&& after.stats == paged::refreshed(
        EngineStats {
            total_paged_kv_pressure_skips: before.stats.total_paged_kv_pressure_skips.plus(1),
            total_paged_kv_pressure_released_pages:
                before.stats.total_paged_kv_pressure_released_pages.plus(
                store.capacity_pages as int,
            ),
            ..before.stats
        },
        before.paged_kv_allocator,
        after.sequences@,
        after.paged_kv_gpu_store,
    )
    &&& after == (InferenceEngine {
        sequences: after.sequences,
        paged_kv_gpu_store: after.paged_kv_gpu_store,
        stats: after.stats,
        ..before
    })
}

/// Pages attend only to what they hold: every kept row's pages cover its past and the rounds since,
/// neither more nor less, and all of it is on the device.
pub proof fn law_attended_pages_are_complete(
    engine: InferenceEngine,
    batch: Seq<u64>,
    kv_lens: Seq<usize>,
    round: int,
    keep: Seq<bool>,
    row: int,
)
    requires
        engine.wf(),
        engine.attends_pages(batch, kv_lens, round, keep),
        0 <= row < batch.len(),
        keep[row],
    ensures
        engine.has(batch[row]),
        engine.sequence(batch[row]).paged_kv.token_len == kv_lens[row] + round,
        engine.sequence(batch[row]).paged_kv.gpu_resident_token_len == kv_lens[row] + round,
        engine.row_tables(batch, keep)[row] == Some(&engine.sequence(batch[row]).paged_kv),
{
    assert(engine.resident(batch[row], kv_lens[row] + round));
    let k = state::index_of(engine.sequences@, batch[row]);
    assert(engine.sequences@[k].id == batch[row]);
    assert(engine.sequences@[k].wf());
}

/// Device memory is under pressure if and only if less than the reserve is left below the limit.
/// Where there is no limit, no reserve or no figure from the device, it is not.
pub proof fn law_pressure_is_a_lack_of_reserve(engine: InferenceEngine, gpu_used: u64, more: u64)
    requires
        engine.pages_in_use(),
        gpu_used <= more,
    ensures
        engine.memory_config.gpu_memory_limit_bytes == 0
            || engine.settings.paged_kv_pressure_reserve_bytes == 0 || gpu_used == 0
            ==> !engine.under_pressure(gpu_used),
        engine.under_pressure(gpu_used) ==> engine.under_pressure(more),
        engine.under_pressure(gpu_used) ==> engine.memory_config.gpu_memory_limit_bytes - gpu_used
            < engine.settings.paged_kv_pressure_reserve_bytes,
        0 < engine.memory_config.gpu_memory_limit_bytes < u64::MAX && gpu_used > 0
            && engine.memory_config.gpu_memory_limit_bytes - gpu_used
            < engine.settings.paged_kv_pressure_reserve_bytes
            && engine.settings.paged_kv_pressure_reserve_bytes > 0 ==> engine.under_pressure(
            gpu_used,
        ),
{
}

/// Giving page storage up loses no token and no page: only what counts as being on the device goes,
/// and that goes for every sequence.
pub proof fn law_relief_forgets_only_residency(
    before: InferenceEngine,
    after: InferenceEngine,
    i: int,
)
    requires
        before.wf(),
        before.paged_kv_gpu_store is Some,
        relieved(before, after),
        0 <= i < before.sequences@.len(),
    ensures
        after.sequences@[i].paged_kv.gpu_resident_token_len == 0,
        after.sequences@[i].paged_kv.token_len == before.sequences@[i].paged_kv.token_len,
        after.sequences@[i].paged_kv.blocks == before.sequences@[i].paged_kv.blocks,
        after.sequences@[i].tokens == before.sequences@[i].tokens,
        after.sequences@[i].kv_caches == before.sequences@[i].kv_caches,
        after.scheduler == before.scheduler,
        after.paged_kv_allocator == before.paged_kv_allocator,
        after.paged_kv_gpu_store matches Some(store) && store.pages is None,
{
}

} // verus!
