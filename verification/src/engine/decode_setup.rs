//! Sets up a batched decode step.
use super::backend::BatchDecodeSetupTimings;
use super::caches;
use super::extract::BatchedKvExtract;
use super::rows;
use super::sequence::{self, Sequence};
use super::state::{self, InferenceEngine, PendingExtract};
use crate::arith;
use crate::stats::{self, EngineStats};
use crate::tensors::LayerKvCaches;
use vstd::prelude::*;

verus! {

/// The stored total of row `r` is what its page table covers now.
pub open spec fn row_current(
    engine: InferenceEngine,
    batch: Seq<u64>,
    totals: Seq<Option<usize>>,
    r: int,
) -> bool {
    &&& r < totals.len()
    &&& engine.has(batch[r])
    &&& match totals[r] {
        Some(total) => engine.sequence(batch[r]).paged_kv.token_len == total,
        None => engine.sequence(batch[r]).paged_kv.token_len == 0,
    }
}

/// The extract has a current total for every row.
pub open spec fn totals_current(
    engine: InferenceEngine,
    batch: Seq<u64>,
    totals: Seq<Option<usize>>,
) -> bool {
    forall|r: int| 0 <= r < batch.len() ==> #[trigger] row_current(engine, batch, totals, r)
}

/// What the last step left behind can set up this batch.
pub open spec fn pending_fits(engine: InferenceEngine, batch: Seq<u64>) -> bool {
    &&& engine.pending_batched_kv_extract matches Some(pending) && {
        &&& pending.batch@ == batch
        &&& totals_current(engine, batch, pending.extract.per_row_totals@)
    }
}

/// Statistics after what the last step left behind was looked at.
pub open spec fn pending_counted(engine: InferenceEngine, batch: Seq<u64>) -> EngineStats {
    match engine.pending_batched_kv_extract {
        None => engine.stats,
        Some(pending) => if pending.batch@ != batch {
            EngineStats {
                total_paged_kv_batched_setup_pending_batch_mismatch:
                    engine.stats.total_paged_kv_batched_setup_pending_batch_mismatch.plus(1),
                ..engine.stats
            }
        } else if !totals_current(engine, batch, pending.extract.per_row_totals@) {
            EngineStats {
                total_paged_kv_batched_setup_pending_token_mismatch:
                    engine.stats.total_paged_kv_batched_setup_pending_token_mismatch.plus(1),
                ..engine.stats
            }
        } else {
            engine.stats
        },
    }
}

/// Rows of a batch that have no caches of their own, but pages.
pub open spec fn only_paged_rows(engine: InferenceEngine, batch: Seq<u64>, upto: int) -> Seq<usize>
    decreases upto,
{
    if upto <= 0 {
        Seq::empty()
    } else {
        let head = only_paged_rows(engine, batch, upto - 1);
        if engine.only_in_pages(batch[upto - 1]) {
            head.push((upto - 1) as usize)
        } else {
            head
        }
    }
}

/// Some row of a batch has caches of its own.
pub open spec fn some_own_caches(engine: InferenceEngine, batch: Seq<u64>) -> bool {
    exists|r: int|
        0 <= r < batch.len() && engine.has(#[trigger] batch[r]) && engine.sequence(
            batch[r],
        ).has_caches()
}

/// Every sequence of the batch is there.
pub open spec fn all_there(engine: InferenceEngine, batch: Seq<u64>) -> bool {
    forall|r: int| 0 <= r < batch.len() ==> engine.has(#[trigger] batch[r])
}

/// `after` are the sequences of `before` with the caches of those of the first `count` rows
/// dropped.
pub open spec fn caches_dropped(
    before: Seq<Sequence>,
    after: Seq<Sequence>,
    batch: Seq<u64>,
    layers: int,
    count: int,
) -> bool {
    &&& after.len() == before.len()
    &&& forall|i: int| #![trigger after[i]]
        0 <= i < before.len() ==> {
            &&& after[i] == (Sequence { kv_caches: after[i].kv_caches, ..before[i] })
            &&& after[i].kv_caches@ == if batch.take(count).contains(before[i].id) {
                sequence::no_caches(layers)
            } else {
                before[i].kv_caches@
            }
        }
}

impl InferenceEngine {
    /// The rows of a batch that are still there and whose clients still listen; `closed` says of
    /// each row whether its client is gone.
    pub fn live_batch(&self, batch: &Vec<u64>, closed: &Vec<bool>) -> (result: (
        Vec<u64>,
        Vec<u64>,
    ))
        requires
            self.wf(),
            batch@.len() == closed@.len(),
        ensures
            result.0@ == split_rows(*self, batch@, closed@, batch@.len() as int).0,
            result.1@ == split_rows(*self, batch@, closed@, batch@.len() as int).1,
            batch@.no_duplicates() ==> result.0@.no_duplicates(),
    {
        let mut live: Vec<u64> = Vec::new();
        let mut gone: Vec<u64> = Vec::new();
        let mut r: usize = 0;
        while r < batch.len()
            invariant
                r <= batch@.len(),
                self.wf(),
                batch@.len() == closed@.len(),
                live@ == split_rows(*self, batch@, closed@, r as int).0,
                gone@ == split_rows(*self, batch@, closed@, r as int).1,
            decreases batch@.len() - r,
        {
            if self.find(batch[r]).is_some() && !closed[r] {
                live.push(batch[r]);
            } else {
                gone.push(batch[r]);
            }
            r = r + 1;
        }
        proof {
            if batch@.no_duplicates() {
                lemma_split_once(*self, batch@, closed@, batch@.len() as int);
            }
        }
        (live, gone)
    }

    /// Takes the caches of the active sequence back from the model, where it is still there.
    pub fn flush_active(&mut self, held: LayerKvCaches)
        requires
            old(self).wf(),
        ensures
            final(self).wf(),
            match old(self).active {
                Some(id) => caches::given(
                    InferenceEngine { active: None, ..*old(self) },
                    *final(self),
                    id,
                    held@,
                ),
                None => *final(self) == *old(self),
            },
    {
        match self.active {
            Some(id) => {
                self.active = None;
                self.set_caches(id, held);
            },
            None => {},
        }
    }

    fn pending_is_current(&self, pending: &PendingExtract) -> (result: bool)
        requires
            self.wf(),
        ensures
            result == totals_current(*self, pending.batch@, pending.extract.per_row_totals@),
    {
        let totals = &pending.extract.per_row_totals;
        let mut r: usize = 0;
        while r < pending.batch.len()
            invariant
                r <= pending.batch@.len(),
                self.wf(),
                totals@ == pending.extract.per_row_totals@,
                forall|j: int|
                    0 <= j < r ==> #[trigger] row_current(*self, pending.batch@, totals@, j),
            decreases pending.batch@.len() - r,
        {
            let fits = r < totals.len() && match self.find(pending.batch[r]) {
                Some(i) => {
                    let len: usize = self.sequences[i].paged_kv.token_len();
                    match totals[r] {
                        Some(total) => len == total,
                        None => len == 0,
                    }
                },
                None => false,
            };
            if !fits {
                assert(!row_current(*self, pending.batch@, totals@, r as int));
                return false;
            }
            r = r + 1;
        }
        true
    }

    /// Takes what the last step left behind, if it can set up this batch; else it is dropped.
    pub fn take_pending(&mut self, batch: &Vec<u64>) -> (result: Option<BatchedKvExtract>)
        requires
            old(self).wf(),
        ensures
            final(self).wf(),
            *final(self) == (InferenceEngine {
                pending_batched_kv_extract: None,
                stats: pending_counted(*old(self), batch@),
                ..*old(self)
            }),
            match result {
                Some(extract) => {
                    &&& pending_fits(*old(self), batch@)
                    &&& extract == old(self).pending_batched_kv_extract->Some_0.extract
                    &&& extract.wf()
                },
                None => !pending_fits(*old(self), batch@),
            },
    {
        match self.pending_batched_kv_extract.take() {
            None => None,
            Some(pending) => {
                if !rows::same_ids(&pending.batch, batch) {
                    self.stats.total_paged_kv_batched_setup_pending_batch_mismatch.fetch_add(1);
                    return None;
                }
                let current = self.pending_is_current(&pending);
                assert(current == totals_current(
                    *old(self),
                    batch@,
                    pending.extract.per_row_totals@,
                )) by {
                    lemma_totals_same(
                        *old(self),
                        *self,
                        batch@,
                        pending.extract.per_row_totals@,
                    );
                }
                if !current {
                    self.stats.total_paged_kv_batched_setup_pending_token_mismatch.fetch_add(1);
                    return None;
                }
                Some(pending.extract)
            },
        }
    }

    /// Falls back to caches per row, where pages cannot set up the batch. The result are the
    /// rows that have to be taken from pages first.
    pub fn plan_row_setup(&mut self, batch: &Vec<u64>) -> (result: Vec<usize>)
        requires
            old(self).wf(),
        ensures
            final(self).wf(),
            *final(self) == (InferenceEngine {
                stats: if some_own_caches(*old(self), batch@) {
                    EngineStats {
                        total_paged_kv_batched_setup_fallback_per_seq_cache:
                            old(self).stats.total_paged_kv_batched_setup_fallback_per_seq_cache.plus(
                            1,
                        ),
                        ..old(self).stats
                    }
                } else {
                    EngineStats {
                        total_paged_kv_batched_setup_fallback_regather_unavailable: old(
                            self,
                        ).stats.total_paged_kv_batched_setup_fallback_regather_unavailable.plus(1),
                        ..old(self).stats
                    }
                },
                ..*old(self)
            }),
            result@ == if some_own_caches(*old(self), batch@) {
                only_paged_rows(*old(self), batch@, batch@.len() as int)
            } else {
                Seq::empty()
            },
    {
        let mut any: bool = false;
        let mut missing: Vec<usize> = Vec::new();
        let mut r: usize = 0;
        while r < batch.len()
            invariant
                r <= batch@.len(),
                self.wf(),
                *self == *old(self),
                any == (exists|j: int|
                    0 <= j < r && self.has(#[trigger] batch@[j]) && self.sequence(
                        batch@[j],
                    ).has_caches()),
                missing@ == only_paged_rows(*self, batch@, r as int),
            decreases batch@.len() - r,
        {
            match self.find(batch[r]) {
                Some(i) => {
                    let cached = self.sequences[i].any_cache();
                    if cached {
                        assert(self.has(batch@[r as int]) && self.sequence(
                            batch@[r as int],
                        ).has_caches());
                        any = true;
                    } else if self.sequences[i].paged_kv.token_len() > 0 {
                        missing.push(r);
                    }
                },
                None => {},
            }
            r = r + 1;
        }
        if any {
            self.stats.total_paged_kv_batched_setup_fallback_per_seq_cache.fetch_add(1);
            missing
        } else {
            self.stats.total_paged_kv_batched_setup_fallback_regather_unavailable.fetch_add(1);
            Vec::new()
        }
    }

    /// Counts a failed gather for a new batch.
    pub fn record_regather_error(&mut self)
        ensures
            *final(self) == (InferenceEngine {
                stats: EngineStats {
                    total_paged_kv_batched_setup_fallback_regather_error: old(
                        self,
                    ).stats.total_paged_kv_batched_setup_fallback_regather_error.plus(1),
                    ..old(self).stats
                },
                ..*old(self)
            }),
            old(self).wf() ==> final(self).wf(),
    {
        self.stats.total_paged_kv_batched_setup_fallback_regather_error.fetch_add(1);
    }

    /// The caches of a batch, row by row.
    pub fn batch_caches(&self, batch: &Vec<u64>) -> (result: Vec<LayerKvCaches>)
        requires
            self.wf(),
            all_there(*self, batch@),
        ensures
            result@.len() == batch@.len(),
            forall|r: int|
                0 <= r < batch@.len() ==> (#[trigger] result@[r])@ == self.sequence(
                    batch@[r],
                ).kv_caches@,
    {
        let mut all: Vec<LayerKvCaches> = Vec::new();
        let mut r: usize = 0;
        while r < batch.len()
            invariant
                r <= batch@.len(),
                self.wf(),
                all_there(*self, batch@),
                all@.len() == r,
                forall|j: int|
                    0 <= j < r ==> (#[trigger] all@[j])@ == self.sequence(batch@[j]).kv_caches@,
            decreases batch@.len() - r,
        {
            assert(self.has(batch@[r as int]));
            all.push(self.caches_to_load(batch[r]));
            r = r + 1;
        }
        all
    }

    /// Counts how a batch was set up: from pages that the last step left behind, from pages
    /// gathered anew, or from caches.
    pub fn record_batched_setup(&mut self, regathered: bool, elapsed_us: u64)
        ensures
            *final(self) == (InferenceEngine {
                stats: if regathered {
                    EngineStats {
                        total_paged_kv_batched_setup_us:
                            old(self).stats.total_paged_kv_batched_setup_us.plus(elapsed_us as int),
                        total_paged_kv_batched_setup_regather:
                            old(self).stats.total_paged_kv_batched_setup_regather.plus(1),
                        ..old(self).stats
                    }
                } else {
                    EngineStats {
                        total_paged_kv_batched_setup_us:
                            old(self).stats.total_paged_kv_batched_setup_us.plus(elapsed_us as int),
                        total_paged_kv_batched_setup_hits:
                            old(self).stats.total_paged_kv_batched_setup_hits.plus(1),
                        ..old(self).stats
                    }
                },
                ..*old(self)
            }),
            old(self).wf() ==> final(self).wf(),
    {
        self.stats.total_paged_kv_batched_setup_us.fetch_add(elapsed_us);
        if regathered {
            self.stats.total_paged_kv_batched_setup_regather.fetch_add(1);
        } else {
            self.stats.total_paged_kv_batched_setup_hits.fetch_add(1);
        }
    }

    /// Counts the layers that a setup from pages copied.
    pub fn record_batched_layers(&mut self, timings: BatchDecodeSetupTimings)
        ensures
            *final(self) == (InferenceEngine {
                stats: EngineStats {
                    total_paged_kv_batched_setup_equal_length_layers: old(
                        self,
                    ).stats.total_paged_kv_batched_setup_equal_length_layers.plus(
                        timings.batched_equal_length_layers as int,
                    ),
                    total_paged_kv_batched_setup_ragged_layers: old(
                        self,
                    ).stats.total_paged_kv_batched_setup_ragged_layers.plus(
                        timings.batched_ragged_layers as int,
                    ),
                    total_paged_kv_batched_setup_ragged_rows: old(
                        self,
                    ).stats.total_paged_kv_batched_setup_ragged_rows.plus(
                        timings.batched_ragged_rows as int,
                    ),
                    ..old(self).stats
                },
                ..*old(self)
            }),
            old(self).wf() ==> final(self).wf(),
    {
        self.stats.total_paged_kv_batched_setup_equal_length_layers.fetch_add(
            timings.batched_equal_length_layers,
        );
        self.stats.total_paged_kv_batched_setup_ragged_layers.fetch_add(
            timings.batched_ragged_layers,
        );
        self.stats.total_paged_kv_batched_setup_ragged_rows.fetch_add(timings.batched_ragged_rows);
    }

    /// Drops the caches of all sequences of a batch, which the model holds now.
    pub fn drop_batch_caches(&mut self, batch: &Vec<u64>)
        requires
            old(self).wf(),
        ensures
            final(self).wf(),
            caches_dropped(
                old(self).sequences@,
                final(self).sequences@,
                batch@,
                old(self).settings.num_layers as int,
                batch@.len() as int,
            ),
            *final(self) == (InferenceEngine { sequences: final(self).sequences, ..*old(self) }),
    {
        let ghost before = *self;
        let mut r: usize = 0;
        while r < batch.len()
            invariant
                r <= batch@.len(),
                self.wf(),
                before.wf(),
                *self == (InferenceEngine { sequences: self.sequences, ..before }),
                caches_dropped(
                    before.sequences@,
                    self.sequences@,
                    batch@,
                    before.settings.num_layers as int,
                    r as int,
                ),
            decreases batch@.len() - r,
        {
            let ghost middle = *self;
            let layers: usize = self.settings.num_layers;
            self.set_caches(batch[r], sequence::empty_caches(layers));
            proof {
                lemma_drop_one(before, middle, *self, batch@, r as int);
            }
            r = r + 1;
        }
        assert(batch@.take(r as int) =~= batch@);
    }

    /// Widths of the batch buffers: the past and all rounds, and the same rounded up to a power
    /// of two where that is asked for.
    pub fn cache_widths(&self, original_max_kv: usize) -> (result: (usize, usize))
        requires
            original_max_kv + self.settings.decode_tokens_per_seq <= usize::MAX / 2 + 1,
        ensures
            result.0 == original_max_kv + self.settings.decode_tokens_per_seq,
            self.settings.graph_width_bucket ==> arith::is_next_power_of_two(
                if result.0 == 0 {
                    1
                } else {
                    result.0 as int
                },
                result.1 as int,
            ),
            !self.settings.graph_width_bucket ==> result.1 == result.0,
    {
        let width: usize = original_max_kv + self.settings.decode_tokens_per_seq;
        if self.settings.graph_width_bucket {
            (
                width,
                arith::next_power_of_two(
                    if width == 0 {
                        1
                    } else {
                        width
                    },
                ),
            )
        } else {
            (width, width)
        }
    }
}

/// The live and the other rows among the first `count`.
pub open spec fn split_rows(
    engine: InferenceEngine,
    batch: Seq<u64>,
    closed: Seq<bool>,
    count: int,
) -> (Seq<u64>, Seq<u64>)
    decreases count,
{
    if count <= 0 {
        (Seq::empty(), Seq::empty())
    } else {
        let (live, gone) = split_rows(engine, batch, closed, count - 1);
        let id = batch[count - 1];
        if engine.has(id) && !closed[count - 1] {
            (live.push(id), gone)
        } else {
            (live, gone.push(id))
        }
    }
}

/// Of rows that are all different, the live ones are.
proof fn lemma_split_once(
    engine: InferenceEngine,
    batch: Seq<u64>,
    closed: Seq<bool>,
    count: int,
)
    requires
        0 <= count <= batch.len(),
        batch.no_duplicates(),
    ensures
        split_rows(engine, batch, closed, count).0.no_duplicates(),
        forall|id: u64| #[trigger]
            split_rows(engine, batch, closed, count).0.contains(id) ==> exists|r: int|
                0 <= r < count && #[trigger] batch[r] == id,
    decreases count,
{
    if count > 0 {
        lemma_split_once(engine, batch, closed, count - 1);
        let live = split_rows(engine, batch, closed, count - 1).0;
        let id = batch[count - 1];
        assert(!live.contains(id));
        let all = split_rows(engine, batch, closed, count).0;
        assert forall|other: u64| #[trigger] all.contains(other) implies exists|r: int|
            0 <= r < count && #[trigger] batch[r] == other by {
            let k = all.index_of(other);
            if k < live.len() {
                assert(live[k] == other);
                assert(live.contains(other));
            } else {
                assert(batch[count - 1] == other);
            }
        }
        assert(all.no_duplicates()) by {
            assert forall|i: int, j: int|
                0 <= i < all.len() && 0 <= j < all.len() && i != j implies all[i] != all[j] by {
                if i < live.len() {
                    assert(live.contains(live[i]));
                }
                if j < live.len() {
                    assert(live.contains(live[j]));
                }
            }
        }
    }
}

proof fn lemma_totals_same(
    before: InferenceEngine,
    after: InferenceEngine,
    batch: Seq<u64>,
    totals: Seq<Option<usize>>,
)
    requires
        after.sequences == before.sequences,
    ensures
        totals_current(before, batch, totals) == totals_current(after, batch, totals),
{
    assert forall|r: int| #[trigger]
        row_current(before, batch, totals, r) == row_current(after, batch, totals, r) by {}
    if totals_current(after, batch, totals) {
        assert forall|r: int| 0 <= r < batch.len() implies #[trigger] row_current(
            before,
            batch,
            totals,
            r,
        ) by {
            assert(row_current(after, batch, totals, r));
        }
    }
    if totals_current(before, batch, totals) {
        assert forall|r: int| 0 <= r < batch.len() implies #[trigger] row_current(
            after,
            batch,
            totals,
            r,
        ) by {
            assert(row_current(before, batch, totals, r));
        }
    }
}

proof fn lemma_drop_one(
    before: InferenceEngine,
    middle: InferenceEngine,
    after: InferenceEngine,
    batch: Seq<u64>,
    r: int,
)
    requires
        before.wf(),
        middle.wf(),
        0 <= r < batch.len(),
        caches_dropped(
            before.sequences@,
            middle.sequences@,
            batch,
            before.settings.num_layers as int,
            r,
        ),
        caches::given(
            middle,
            after,
            batch[r],
            sequence::no_caches(before.settings.num_layers as int),
        ),
    ensures
        caches_dropped(
            before.sequences@,
            after.sequences@,
            batch,
            before.settings.num_layers as int,
            r + 1,
        ),
{
    let id = batch[r];
    let layers = before.settings.num_layers as int;
    assert(batch.take(r + 1) =~= batch.take(r).push(id));
    assert forall|i: int| #![trigger after.sequences@[i]]
        0 <= i < before.sequences@.len() implies {
        &&& after.sequences@[i] == (Sequence {
            kv_caches: after.sequences@[i].kv_caches,
            ..before.sequences@[i]
        })
        &&& after.sequences@[i].kv_caches@ == if batch.take(r + 1).contains(
            before.sequences@[i].id,
        ) {
            sequence::no_caches(layers)
        } else {
            before.sequences@[i].kv_caches@
        }
    } by {
        let own = before.sequences@[i].id;
        assert(middle.sequences@[i] == (Sequence {
            kv_caches: middle.sequences@[i].kv_caches,
            ..before.sequences@[i]
        }));
        assert(batch.take(r + 1).contains(own) <==> batch.take(r).contains(own) || own == id) by {
            if batch.take(r).contains(own) {
                let k = batch.take(r).index_of(own);
                assert(batch.take(r + 1)[k] == own);
            }
            if own == id {
                assert(batch.take(r + 1)[r] == own);
            }
            if batch.take(r + 1).contains(own) && own != id {
                let k = batch.take(r + 1).index_of(own);
                assert(batch.take(r)[k] == own);
            }
        }
        if middle.has(id) {
            let k = state::index_of(middle.sequences@, id);
            assert(middle.sequences@[k].id == id);
            if own == id {
                state::lemma_index(middle.sequences@, i);
            }
        } else {
            assert(own != id) by {
                if own == id {
                    assert(middle.sequences@[i].id == id);
                    assert(state::has_id(middle.sequences@, id));
                }
            }
        }
    }
}

/// Of a batch, the rows whose sequences are there and whose clients listen go on, and all others
/// are given up: each row is one or the other.
pub proof fn law_every_row_goes_on_or_is_given_up(
    engine: InferenceEngine,
    batch: Seq<u64>,
    closed: Seq<bool>,
    count: int,
    r: int,
)
    requires
        0 <= r < count <= batch.len(),
        batch.no_duplicates(),
    ensures
        ({
            let (live, gone) = split_rows(engine, batch, closed, count);
            &&& live.contains(batch[r]) <==> engine.has(batch[r]) && !closed[r]
            &&& gone.contains(batch[r]) <==> !live.contains(batch[r])
            &&& live.len() + gone.len() == count
        }),
    decreases count,
{
    let (live, gone) = split_rows(engine, batch, closed, count - 1);
    let (more_live, more_gone) = split_rows(engine, batch, closed, count);
    let last = batch[count - 1];
    lemma_split_among(engine, batch, closed, count - 1);
    if r < count - 1 {
        law_every_row_goes_on_or_is_given_up(engine, batch, closed, count - 1, r);
        assert(batch[r] != last);
        if live.contains(batch[r]) {
            let k = live.index_of(batch[r]);
            assert(more_live[k] == batch[r]);
        }
        if gone.contains(batch[r]) {
            let k = gone.index_of(batch[r]);
            assert(more_gone[k] == batch[r]);
        }
        if more_live.contains(batch[r]) {
            let k = more_live.index_of(batch[r]);
            assert(k < live.len());
            assert(live[k] == batch[r]);
        }
        if more_gone.contains(batch[r]) {
            let k = more_gone.index_of(batch[r]);
            assert(k < gone.len());
            assert(gone[k] == batch[r]);
        }
    } else {
        if engine.has(last) && !closed[count - 1] {
            assert(more_live[live.len() as int] == last);
        } else {
            assert(more_gone[gone.len() as int] == last);
        }
        assert(!live.contains(last) && !gone.contains(last));
    }
}

/// Split rows are rows.
proof fn lemma_split_among(
    engine: InferenceEngine,
    batch: Seq<u64>,
    closed: Seq<bool>,
    count: int,
)
    requires
        0 <= count < batch.len(),
        batch.no_duplicates(),
    ensures
        !split_rows(engine, batch, closed, count).0.contains(batch[count]),
        !split_rows(engine, batch, closed, count).1.contains(batch[count]),
        split_rows(engine, batch, closed, count).0.len() + split_rows(
            engine,
            batch,
            closed,
            count,
        ).1.len() == count,
{
    lemma_split_from(engine, batch, closed, count, count);
}

proof fn lemma_split_from(
    engine: InferenceEngine,
    batch: Seq<u64>,
    closed: Seq<bool>,
    count: int,
    later: int,
)
    requires
        0 <= count <= later < batch.len(),
        batch.no_duplicates(),
    ensures
        !split_rows(engine, batch, closed, count).0.contains(batch[later]),
        !split_rows(engine, batch, closed, count).1.contains(batch[later]),
        split_rows(engine, batch, closed, count).0.len() + split_rows(
            engine,
            batch,
            closed,
            count,
        ).1.len() == count,
    decreases count,
{
    if count > 0 {
        lemma_split_from(engine, batch, closed, count - 1, later);
        assert(batch[count - 1] != batch[later]);
        let (live, gone) = split_rows(engine, batch, closed, count - 1);
        let (more_live, more_gone) = split_rows(engine, batch, closed, count);
        if more_live.contains(batch[later]) {
            let k = more_live.index_of(batch[later]);
            assert(k < live.len());
            assert(live[k] == batch[later]);
        }
        if more_gone.contains(batch[later]) {
            let k = more_gone.index_of(batch[later]);
            assert(k < gone.len());
            assert(gone[k] == batch[later]);
        }
    }
}

/// What the last step left behind is used only for the very same batch, and only if it holds as
/// many tokens of each row as the row's pages cover.
pub proof fn law_only_current_extracts_are_used(engine: InferenceEngine, batch: Seq<u64>, r: int)
    requires
        pending_fits(engine, batch),
        0 <= r < batch.len(),
    ensures
        engine.pending_batched_kv_extract matches Some(pending) && {
            &&& pending.batch@[r] == batch[r]
            &&& pending.batch@.len() == batch.len()
            &&& engine.has(batch[r])
            &&& engine.sequence(batch[r]).paged_kv.token_len
                == match pending.extract.per_row_totals@[r] {
                Some(total) => total as int,
                None => 0,
            }
        },
{
    let totals = engine.pending_batched_kv_extract->Some_0.extract.per_row_totals@;
    assert(row_current(engine, batch, totals, r));
}

/// Setting a batch up empties the caches of its own sequences and of no other.
pub proof fn law_only_the_batch_loses_caches(
    before: Seq<Sequence>,
    after: Seq<Sequence>,
    batch: Seq<u64>,
    layers: int,
    i: int,
)
    requires
        caches_dropped(before, after, batch, layers, batch.len() as int),
        0 <= i < before.len(),
    ensures
        after[i].tokens == before[i].tokens,
        after[i].paged_kv == before[i].paged_kv,
        batch.contains(before[i].id) ==> !after[i].has_caches(),
        !batch.contains(before[i].id) ==> after[i].kv_caches@ == before[i].kv_caches@,
{
    assert(batch.take(batch.len() as int) =~= batch);
    assert(after[i] == after[i]);
    if batch.contains(before[i].id) {
        let own = after[i].kv_caches@;
        assert forall|l: int| 0 <= l < own.len() implies (#[trigger] own[l]) is None by {
            assert(sequence::no_caches(layers)[l] is None);
        }
    }
}

/// What the last step left behind is used, or given up for one reason: it was left by another
/// batch, or its rows have moved on.
pub proof fn law_stale_extracts_are_counted_once(engine: InferenceEngine, batch: Seq<u64>)
    ensures
        ({
            let after = pending_counted(engine, batch);
            let strange = stats::moved(
                engine.stats.total_paged_kv_batched_setup_pending_batch_mismatch,
                after.total_paged_kv_batched_setup_pending_batch_mismatch,
            );
            let stale = stats::moved(
                engine.stats.total_paged_kv_batched_setup_pending_token_mismatch,
                after.total_paged_kv_batched_setup_pending_token_mismatch,
            );
            &&& strange + stale == if engine.pending_batched_kv_extract is Some && !pending_fits(
                engine,
                batch,
            ) {
                1int
            } else {
                0
            }
            &&& engine.pending_batched_kv_extract matches Some(pending) ==> (strange == 1
                <==> pending.batch@ != batch)
        }),
{
}

} // verus!
