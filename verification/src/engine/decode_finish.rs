//! Ends a batched decode step: where keys and values go, and what is counted.
use super::append;
use super::backend::{BatchDecodeExtractTimings, BatchDecodeSetupTimings};
use super::caches;
use super::decode::{self, BatchDecode};
use super::decode_setup;
use super::extract::BatchedKvExtract;
use super::rows;
use super::scheduler;
use super::sequence::{self, Sequence};
use super::state::{self, InferenceEngine, PendingExtract};
use crate::stats::EngineStats;
use crate::tensors::{self, LayerKvCaches};
use candle_core::Tensor;
use vstd::prelude::*;

verus! {

/// How long the parts of a batched decode step took, in microseconds.
#[derive(Debug, Clone, Copy, PartialEq, Eq, Structural)]
pub struct BatchDecodeTimings {
    pub decode_us: u64,
    pub setup_us: u64,
    pub mask_us: u64,
    pub forward_us: u64,
    pub sampling_us: u64,
    pub extract_us: u64,
    pub extract_state_replace_us: u64,
}

/// Layer caches of one row.
pub type RowCaches = Seq<Option<(Tensor, Tensor)>>;

/// The caches that sequence `id` gets, among the first `count` rows: those of its row, if that is
/// alive and there are any.
pub open spec fn caches_for(step: BatchDecode, rows: Seq<RowCaches>, id: u64, count: int) -> Option<
    RowCaches,
>
    decreases count,
{
    if count <= 0 {
        None
    } else if step.batch@[count - 1] == id && step.alive@[count - 1] && count - 1 < rows.len() {
        Some(rows[count - 1])
    } else {
        caches_for(step, rows, id, count - 1)
    }
}

/// `after` is `before` after the first `count` rows got their caches.
pub open spec fn caches_kept(
    before: Seq<Sequence>,
    after: Seq<Sequence>,
    step: BatchDecode,
    rows: Seq<RowCaches>,
    count: int,
) -> bool {
    &&& after.len() == before.len()
    &&& forall|i: int| #![trigger after[i]]
        0 <= i < before.len() ==> {
            &&& after[i] == (Sequence { kv_caches: after[i].kv_caches, ..before[i] })
            &&& after[i].kv_caches@ == match caches_for(step, rows, before[i].id, count) {
                Some(own) => own,
                None => before[i].kv_caches@,
            }
        }
}

/// The views of a list of caches.
pub open spec fn views(rows: Seq<LayerKvCaches>) -> Seq<RowCaches> {
    Seq::new(rows.len(), |r: int| rows[r]@)
}

/// `kept` is `before` with these caches given to the live rows.
pub open spec fn rows_kept(
    before: InferenceEngine,
    kept: InferenceEngine,
    step: BatchDecode,
    rows: Seq<RowCaches>,
) -> bool {
    &&& caches_kept(
        before.sequences@,
        kept.sequences@,
        step,
        rows,
        step.batch@.len() as int,
    )
    &&& kept == (InferenceEngine { sequences: kept.sequences, ..before })
}

/// `paged` is `kept` with page tables that cover all tokens of the live rows but the last. They
/// do so already where keys and values were appended to pages.
pub open spec fn pages_follow(
    kept: InferenceEngine,
    paged: InferenceEngine,
    step: BatchDecode,
    appended: bool,
) -> bool {
    if appended {
        paged == kept
    } else {
        append::all_synced(
            kept,
            paged,
            step.batch@,
            step.positions@,
            0,
            step.alive@,
            step.batch@.len() as int,
        )
    }
}

/// `after` is `before` after a step whose live rows keep these caches.
pub open spec fn settled(
    before: InferenceEngine,
    after: InferenceEngine,
    step: BatchDecode,
    rows: Seq<RowCaches>,
    appended: bool,
    active_bytes: u64,
) -> bool {
    exists|kept: InferenceEngine, paged: InferenceEngine|
        {
            &&& #[trigger] rows_kept(before, kept, step, rows)
            &&& #[trigger] pages_follow(kept, paged, step, appended)
            &&& after == caches::recounted(
                InferenceEngine {
                    pending_batched_kv_extract: after.pending_batched_kv_extract,
                    ..paged
                },
                active_bytes,
            )
        }
}

proof fn lemma_keep_one(
    before: InferenceEngine,
    middle: InferenceEngine,
    after: InferenceEngine,
    step: BatchDecode,
    rows: Seq<RowCaches>,
    r: int,
)
    requires
        before.wf(),
        0 <= r < step.batch@.len(),
        r < rows.len(),
        step.alive@[r],
        caches_kept(before.sequences@, middle.sequences@, step, rows, r),
        caches::given(middle, after, step.batch@[r], rows[r]),
    ensures
        caches_kept(before.sequences@, after.sequences@, step, rows, r + 1),
{
    let id = step.batch@[r];
    state::lemma_same_ids_same_places(before.sequences@, middle.sequences@);
    assert(state::has_id(middle.sequences@, id) <==> state::has_id(before.sequences@, id));
    assert forall|i: int| #![trigger after.sequences@[i]]
        0 <= i < before.sequences@.len() implies {
        &&& after.sequences@[i] == (Sequence {
            kv_caches: after.sequences@[i].kv_caches,
            ..before.sequences@[i]
        })
        &&& after.sequences@[i].kv_caches@ == match caches_for(
            step,
            rows,
            before.sequences@[i].id,
            r + 1,
        ) {
            Some(own) => own,
            None => before.sequences@[i].kv_caches@,
        }
    } by {
        assert(middle.sequences@[i].id == before.sequences@[i].id);
        if middle.has(id) {
            let k = state::index_of(middle.sequences@, id);
            assert(middle.sequences@[k].id == id);
            if i != k && middle.sequences@[i].id == id {
                state::lemma_index(middle.sequences@, i);
            }
        } else if middle.sequences@[i].id == id {
            assert(state::has_id(middle.sequences@, id));
        }
    }
}

proof fn lemma_keep_none(
    before: Seq<Sequence>,
    after: Seq<Sequence>,
    step: BatchDecode,
    rows: Seq<RowCaches>,
    r: int,
)
    requires
        0 <= r < step.batch@.len(),
        !step.alive@[r] || r >= rows.len(),
        caches_kept(before, after, step, rows, r),
    ensures
        caches_kept(before, after, step, rows, r + 1),
{
    assert forall|i: int| #![trigger after[i]] 0 <= i < before.len() implies caches_for(
        step,
        rows,
        before[i].id,
        r + 1,
    ) == caches_for(step, rows, before[i].id, r) by {}
}

impl InferenceEngine {
    fn keep_rows(&mut self, step: &BatchDecode, rows: &Vec<LayerKvCaches>)
        requires
            old(self).wf(),
            step.alive@.len() == step.batch@.len(),
        ensures
            final(self).wf(),
            rows_kept(*old(self), *final(self), *step, views(rows@)),
    {
        let ghost before = *self;
        let ghost all = views(rows@);
        let mut r: usize = 0;
        while r < step.batch.len()
            invariant
                r <= step.batch@.len(),
                step.alive@.len() == step.batch@.len(),
                before.wf(),
                self.wf(),
                all == views(rows@),
                *self == (InferenceEngine { sequences: self.sequences, ..before }),
                caches_kept(before.sequences@, self.sequences@, *step, all, r as int),
            decreases step.batch@.len() - r,
        {
            if step.alive[r] && r < rows.len() {
                let ghost middle = *self;
                self.set_caches(step.batch[r], tensors::share_caches(rows[r].as_slice()));
                proof {
                    assert(all[r as int] == rows@[r as int]@);
                    lemma_keep_one(before, middle, *self, *step, all, r as int);
                }
            } else {
                proof {
                    lemma_keep_none(before.sequences@, self.sequences@, *step, all, r as int);
                }
            }
            r = r + 1;
        }
    }

    fn follow_pages(&mut self, step: &BatchDecode, appended: bool)
        requires
            old(self).wf(),
            step.alive@.len() == step.batch@.len(),
            step.positions@.len() == step.batch@.len(),
            appended || old(self).paged_kv_allocator.spare(
                append::kept_tokens(step.positions@, 0, step.alive@, step.batch@.len() as int),
            ),
        ensures
            final(self).wf(),
            pages_follow(*old(self), *final(self), *step, appended),
            final(self).pending_batched_kv_extract == old(self).pending_batched_kv_extract,
    {
        if !appended {
            self.sync_rows(&step.batch, &step.positions, 0, &step.alive);
        }
    }

    /// Whether the counters of the pages can follow the live rows of a step to its end. Rows that
    /// were copied into pages need nothing more.
    pub fn room_to_settle(&self, step: &BatchDecode, appended: bool) -> (result: bool)
        requires
            step.positions@.len() == step.batch@.len(),
            step.alive@.len() == step.batch@.len(),
        ensures
            result == (appended || self.paged_kv_allocator.spare(
                append::kept_tokens(step.positions@, 0, step.alive@, step.batch@.len() as int),
            )),
    {
        appended || self.room_for_rows(&step.positions, 0, &step.alive)
    }

    /// Ends a step whose live rows keep caches of their own. `appended` says that their pages
    /// cover the step already.
    pub fn settle_rows(
        &mut self,
        step: &BatchDecode,
        rows: &Vec<LayerKvCaches>,
        appended: bool,
        active_bytes: u64,
    )
        requires
            old(self).wf(),
            step.wf(old(self).settings.decode_tokens_per_seq as int),
            step.tracks(*old(self)),
            appended || old(self).paged_kv_allocator.spare(
                append::kept_tokens(step.positions@, 0, step.alive@, step.batch@.len() as int),
            ),
        ensures
            final(self).wf(),
            settled(*old(self), *final(self), *step, views(rows@), appended, active_bytes),
            final(self).pending_batched_kv_extract == old(self).pending_batched_kv_extract,
    {
        let ghost before = *self;
        self.keep_rows(step, rows);
        let ghost kept = *self;
        self.follow_pages(step, appended);
        let ghost paged = *self;
        self.recount_kv_bytes(active_bytes);
        proof {
            assert(rows_kept(before, kept, *step, views(rows@)));
            assert(pages_follow(kept, paged, *step, appended));
        }
    }

    /// Ends a step whose live rows keep nothing but pages; what was taken from them waits for
    /// the next step.
    pub fn settle_pages(
        &mut self,
        step: &BatchDecode,
        extract: BatchedKvExtract,
        appended: bool,
        active_bytes: u64,
    )
        requires
            old(self).wf(),
            step.wf(old(self).settings.decode_tokens_per_seq as int),
            step.tracks(*old(self)),
            extract.wf(),
            appended || old(self).paged_kv_allocator.spare(
                append::kept_tokens(step.positions@, 0, step.alive@, step.batch@.len() as int),
            ),
        ensures
            final(self).wf(),
            settled(
                *old(self),
                *final(self),
                *step,
                Seq::new(
                    step.batch@.len(),
                    |r: int| sequence::no_caches(old(self).settings.num_layers as int),
                ),
                appended,
                active_bytes,
            ),
            final(self).pending_batched_kv_extract matches Some(pending) && pending.batch@
                == step.batch@ && pending.extract == extract,
    {
        let ghost before = *self;
        let layers: usize = self.settings.num_layers;
        let mut empty: Vec<LayerKvCaches> = Vec::new();
        let mut r: usize = 0;
        while r < step.batch.len()
            invariant
                r <= step.batch@.len(),
                empty@.len() == r,
                forall|j: int|
                    0 <= j < r ==> (#[trigger] empty@[j])@ == sequence::no_caches(layers as int),
            decreases step.batch@.len() - r,
        {
            empty.push(sequence::empty_caches(layers));
            r = r + 1;
        }
        let ghost none = Seq::new(
            step.batch@.len(),
            |r: int| sequence::no_caches(before.settings.num_layers as int),
        );
        assert(views(empty@) =~= none);
        self.keep_rows(step, &empty);
        let ghost kept = *self;
        self.follow_pages(step, appended);
        let ghost paged = *self;
        self.pending_batched_kv_extract = Some(
            PendingExtract { batch: scheduler::copy_ids(&step.batch), extract },
        );
        self.recount_kv_bytes(active_bytes);
        proof {
            assert(rows_kept(before, kept, *step, none));
            assert(pages_follow(kept, paged, *step, appended));
        }
    }

    /// Counts a batched decode step.
    pub fn record_batch_decode(
        &mut self,
        tokens: u64,
        timings: BatchDecodeTimings,
        setup: BatchDecodeSetupTimings,
        extract: BatchDecodeExtractTimings,
    )
        ensures
            *final(self) == (InferenceEngine {
                stats: step_counted(old(self).stats, tokens, timings, setup, extract),
                ..*old(self)
            }),
            old(self).wf() ==> final(self).wf(),
    {
        self.stats.total_decode_time_us.fetch_add(timings.decode_us);
        self.stats.total_batch_decode_calls.fetch_add(1);
        self.stats.total_batch_decode_tokens.fetch_add(tokens);
        self.stats.total_batch_decode_time_us.fetch_add(timings.decode_us);
        self.stats.total_batch_decode_setup_time_us.fetch_add(timings.setup_us);
        self.stats.total_batch_decode_setup_kv_len_scan_time_us.fetch_add(setup.kv_len_scan_us);
        self.stats.total_batch_decode_setup_pad_stack_time_us.fetch_add(setup.pad_stack_us);
        self.stats.total_batch_decode_setup_contiguous_time_us.fetch_add(setup.contiguous_us);
        self.stats.total_batch_decode_setup_extra_room_time_us.fetch_add(setup.extra_room_alloc_us);
        self.stats.total_batch_decode_setup_cache_assign_time_us.fetch_add(setup.cache_assign_us);
        self.stats.total_batch_decode_mask_time_us.fetch_add(timings.mask_us);
        self.stats.total_batch_decode_forward_time_us.fetch_add(timings.forward_us);
        self.stats.total_batch_decode_sampling_time_us.fetch_add(timings.sampling_us);
        self.stats.total_batch_decode_extract_time_us.fetch_add(timings.extract_us);
        self.stats.total_batch_decode_extract_narrow_time_us.fetch_add(extract.narrow_us);
        self.stats.total_batch_decode_extract_contiguous_time_us.fetch_add(extract.contiguous_us);
        self.stats.total_batch_decode_extract_cache_clear_time_us.fetch_add(extract.cache_clear_us);
        self.stats.total_batch_decode_extract_state_replace_time_us.fetch_add(
            timings.extract_state_replace_us,
        );
    }
}

/// Statistics after a batched decode step.
pub open spec fn step_counted(
    stats: EngineStats,
    tokens: u64,
    timings: BatchDecodeTimings,
    setup: BatchDecodeSetupTimings,
    extract: BatchDecodeExtractTimings,
) -> EngineStats {
    EngineStats {
        total_decode_time_us: stats.total_decode_time_us.plus(timings.decode_us as int),
        total_batch_decode_calls: stats.total_batch_decode_calls.plus(1),
        total_batch_decode_tokens: stats.total_batch_decode_tokens.plus(tokens as int),
        total_batch_decode_time_us: stats.total_batch_decode_time_us.plus(
            timings.decode_us as int,
        ),
        total_batch_decode_setup_time_us: stats.total_batch_decode_setup_time_us.plus(
            timings.setup_us as int,
        ),
        total_batch_decode_setup_kv_len_scan_time_us:
            stats.total_batch_decode_setup_kv_len_scan_time_us.plus(setup.kv_len_scan_us as int),
        total_batch_decode_setup_pad_stack_time_us:
            stats.total_batch_decode_setup_pad_stack_time_us.plus(setup.pad_stack_us as int),
        total_batch_decode_setup_contiguous_time_us:
            stats.total_batch_decode_setup_contiguous_time_us.plus(setup.contiguous_us as int),
        total_batch_decode_setup_extra_room_time_us:
            stats.total_batch_decode_setup_extra_room_time_us.plus(
            setup.extra_room_alloc_us as int,
        ),
        total_batch_decode_setup_cache_assign_time_us:
            stats.total_batch_decode_setup_cache_assign_time_us.plus(setup.cache_assign_us as int),
        total_batch_decode_mask_time_us: stats.total_batch_decode_mask_time_us.plus(
            timings.mask_us as int,
        ),
        total_batch_decode_forward_time_us: stats.total_batch_decode_forward_time_us.plus(
            timings.forward_us as int,
        ),
        total_batch_decode_sampling_time_us: stats.total_batch_decode_sampling_time_us.plus(
            timings.sampling_us as int,
        ),
        total_batch_decode_extract_time_us: stats.total_batch_decode_extract_time_us.plus(
            timings.extract_us as int,
        ),
        total_batch_decode_extract_narrow_time_us:
            stats.total_batch_decode_extract_narrow_time_us.plus(extract.narrow_us as int),
        total_batch_decode_extract_contiguous_time_us:
            stats.total_batch_decode_extract_contiguous_time_us.plus(extract.contiguous_us as int),
        total_batch_decode_extract_cache_clear_time_us:
            stats.total_batch_decode_extract_cache_clear_time_us.plus(
            extract.cache_clear_us as int,
        ),
        total_batch_decode_extract_state_replace_time_us:
            stats.total_batch_decode_extract_state_replace_time_us.plus(
            timings.extract_state_replace_us as int,
        ),
        ..stats
    }
}

/// What a step leaves behind sets up the next one, if the batch stays the same: its totals are
/// those of the page tables.
pub proof fn law_settled_step_feeds_the_next(
    before: InferenceEngine,
    after: InferenceEngine,
    step: BatchDecode,
    caches: Seq<RowCaches>,
    active_bytes: u64,
    pending: PendingExtract,
)
    requires
        before.wf(),
        step.wf(before.settings.decode_tokens_per_seq as int),
        step.tracks(before),
        rows::all_alive(step.alive@),
        settled(before, after, step, caches, false, active_bytes),
        after.pending_batched_kv_extract == Some(pending),
        pending.batch@ == step.batch@,
        pending.extract.per_row_totals@ == Seq::new(
            step.batch@.len(),
            |r: int| Some(step.positions@[r]),
        ),
    ensures
        decode_setup::pending_fits(after, step.batch@),
{
    let n = step.batch@.len() as int;
    let (kept, paged) = choose|kept: InferenceEngine, paged: InferenceEngine|
        {
            &&& #[trigger] rows_kept(before, kept, step, caches)
            &&& #[trigger] pages_follow(kept, paged, step, false)
            &&& after == caches::recounted(
                InferenceEngine {
                    pending_batched_kv_extract: after.pending_batched_kv_extract,
                    ..paged
                },
                active_bytes,
            )
        };
    state::lemma_same_ids_same_places(before.sequences@, kept.sequences@);
    assert forall|r: int| #![trigger step.alive@[r]] 0 <= r < n && step.alive@[r] implies kept.has(
        step.batch@[r],
    ) && step.positions@[r] + 0 <= usize::MAX by {
        assert(decode::row_ready(before, step, r));
        assert(state::has_id(kept.sequences@, step.batch@[r]));
    }
    append::law_synced_rows_are_covered(
        kept,
        paged,
        step.batch@,
        step.positions@,
        0,
        step.alive@,
        n,
    );
    state::lemma_same_ids_same_places(kept.sequences@, paged.sequences@);
    let totals = pending.extract.per_row_totals@;
    assert forall|r: int| 0 <= r < n implies #[trigger] decode_setup::row_current(
        after,
        step.batch@,
        totals,
        r,
    ) by {
        assert(step.alive@[r]);
        assert(kept.has(step.batch@[r]));
        assert(state::has_id(paged.sequences@, step.batch@[r]));
        assert(after.sequences == paged.sequences);
        assert(paged.sequence(step.batch@[r]).paged_kv.token_len == step.positions@[r]);
    }
}

/// After a step every live row's sequence has the caches that were taken out for that row, and
/// every other sequence has the caches that it had.
pub proof fn law_live_rows_keep_their_caches(
    before: InferenceEngine,
    kept: InferenceEngine,
    step: BatchDecode,
    rows: Seq<RowCaches>,
    id: u64,
)
    requires
        before.wf(),
        step.batch@.no_duplicates(),
        rows_kept(before, kept, step, rows),
        before.has(id),
    ensures
        kept.has(id),
        kept.sequence(id).tokens@ == before.sequence(id).tokens@,
        forall|r: int| #![trigger step.batch@[r]]
            0 <= r < step.batch@.len() && step.batch@[r] == id && step.alive@[r] && r < rows.len()
                ==> kept.sequence(id).kv_caches@ == rows[r],
        (forall|r: int| #![trigger step.batch@[r]]
            0 <= r < step.batch@.len() && step.alive@[r] ==> step.batch@[r] != id)
            ==> kept.sequence(id).kv_caches@ == before.sequence(id).kv_caches@,
{
    let list = before.sequences@;
    let all = kept.sequences@;
    assert forall|i: int| #![trigger all[i]] 0 <= i < list.len() implies all[i].id
        == list[i].id by {
        assert(all[i] == all[i]);
    }
    state::lemma_same_ids_same_places(list, all);
    assert(state::has_id(list, id));
    assert(state::has_id(all, id));
    let i = state::index_of(list, id);
    assert(list[i].id == id);
    assert(all[i] == all[i]);
    let n = step.batch@.len() as int;
    assert forall|r: int| #![trigger step.batch@[r]]
        0 <= r < step.batch@.len() && step.batch@[r] == id && step.alive@[r] && r
            < rows.len() implies kept.sequence(id).kv_caches@ == rows[r] by {
        lemma_own_row(step, rows, r, n);
    }
    if forall|r: int| #![trigger step.batch@[r]]
        0 <= r < step.batch@.len() && step.alive@[r] ==> step.batch@[r] != id {
        lemma_no_row(step, rows, id, n);
    }
}

proof fn lemma_own_row(step: BatchDecode, rows: Seq<RowCaches>, r: int, count: int)
    requires
        0 <= r < count <= step.batch@.len(),
        r < rows.len(),
        step.alive@[r],
        step.batch@.no_duplicates(),
    ensures
        caches_for(step, rows, step.batch@[r], count) == Some(rows[r]),
    decreases count,
{
    if count - 1 > r {
        assert(step.batch@[count - 1] != step.batch@[r]);
        lemma_own_row(step, rows, r, count - 1);
    }
}

proof fn lemma_no_row(step: BatchDecode, rows: Seq<RowCaches>, id: u64, count: int)
    requires
        count <= step.batch@.len(),
        forall|r: int| #![trigger step.batch@[r]]
            0 <= r < step.batch@.len() && step.alive@[r] ==> step.batch@[r] != id,
    ensures
        caches_for(step, rows, id, count) is None,
    decreases count,
{
    if count > 0 {
        lemma_no_row(step, rows, id, count - 1);
        assert(step.alive@[count - 1] ==> step.batch@[count - 1] != id);
    }
}

} // verus!
