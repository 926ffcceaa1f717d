//! Copies keys and values of a batch into device pages.
use super::paged;
use super::residency;
use super::sequence::Sequence;
use super::state::{self, InferenceEngine};
use crate::paged_kv::gpu_store;
use crate::paged_kv::{
    GpuLayerCopies, PagedKvGpuError, PagedKvNativeAppendPlan, PagedKvSequence, PagedKvStorageError,
};
use crate::tensors::{self, LayerKvCaches};
use vstd::prelude::*;

verus! {

/// Why a batch cannot be copied into pages.
#[derive(Debug, Clone, Copy, PartialEq, Eq, Structural)]
pub enum PageCopyError {
    MetadataMismatch { batch: usize, kv_lens: usize, keep: usize },
    MissingSequence { id: u64 },
    /// A row has more past than the batch is wide.
    RowTooLong { row: usize, kv_len: usize, width: usize },
    Storage(PagedKvStorageError),
}

/// One token of a copy plan: its page and place in it, and its row and place in the batch.
#[derive(Debug, Clone, Copy, PartialEq, Eq, Structural)]
pub struct CopyEntry {
    pub page_id: u32,
    pub token_offset: u32,
    pub row: u32,
    pub source: u32,
}

/// The tokens of a copy plan, in order.
pub open spec fn plan_entries(plan: PagedKvNativeAppendPlan) -> Seq<CopyEntry> {
    Seq::new(
        plan.page_ids@.len(),
        |k: int|
            CopyEntry {
                page_id: plan.page_ids@[k],
                token_offset: plan.token_offsets@[k],
                row: plan.row_indices@[k],
                source: plan.source_token_indices@[k],
            },
    )
}

/// The entry of one token.
pub open spec fn copy_entry(table: PagedKvSequence, row: int, token: int, source: int) -> CopyEntry {
    CopyEntry {
        page_id: table.slot(token).0 as u32,
        token_offset: table.slot(token).1 as u32,
        row: row as u32,
        source: source as u32,
    }
}

/// The entries of `count` tokens in a row.
pub open spec fn run_entries(
    table: PagedKvSequence,
    row: int,
    token: int,
    source: int,
    count: int,
) -> Seq<CopyEntry> {
    Seq::new(count as nat, |k: int| copy_entry(table, row, token + k, source + k))
}

/// Why `count` tokens in a row cannot be planned: what is wrong with the first bad one.
pub open spec fn run_error(
    table: PagedKvSequence,
    token: int,
    source: int,
    count: int,
) -> Option<PagedKvStorageError>
    decreases count,
{
    if count <= 0 {
        None
    } else {
        match run_error(table, token, source, count - 1) {
            Some(error) => Some(error),
            None => {
                let last = token + count - 1;
                match table.slot_error(last as usize) {
                    Some(error) => Some(error),
                    None => PagedKvNativeAppendPlan::push_error(
                        table.slot(last).0,
                        (source + count - 1) as usize,
                    ),
                }
            },
        }
    }
}

proof fn lemma_run_error_stays(
    table: PagedKvSequence,
    token: int,
    source: int,
    few: int,
    all: int,
)
    requires
        few <= all,
        run_error(table, token, source, few) is Some,
    ensures
        run_error(table, token, source, all) == run_error(table, token, source, few),
    decreases all - few,
{
    if few < all {
        lemma_run_error_stays(table, token, source, few, all - 1);
    }
}

/// Adds `count` tokens in a row to a plan.
fn push_run(
    plan: &mut PagedKvNativeAppendPlan,
    table: &PagedKvSequence,
    row: usize,
    token: usize,
    source: usize,
    count: usize,
) -> (result: Result<(), PagedKvStorageError>)
    requires
        old(plan).wf(),
        table.block_size > 0,
        token + count <= usize::MAX,
        source + count <= usize::MAX,
    ensures
        final(plan).wf(),
        match result {
            Ok(_) => {
                &&& run_error(*table, token as int, source as int, count as int) is None
                &&& plan_entries(*final(plan)) == plan_entries(*old(plan)) + run_entries(
                    *table,
                    row as int,
                    token as int,
                    source as int,
                    count as int,
                )
            },
            Err(error) => run_error(*table, token as int, source as int, count as int) == Some(
                error,
            ),
        },
{
    let ghost first = plan_entries(*plan);
    let mut k: usize = 0;
    while k < count
        invariant
            k <= count,
            plan.wf(),
            first == plan_entries(*old(plan)),
            table.block_size > 0,
            token + count <= usize::MAX,
            source + count <= usize::MAX,
            run_error(*table, token as int, source as int, k as int) is None,
            plan_entries(*plan) =~= first + run_entries(
                *table,
                row as int,
                token as int,
                source as int,
                k as int,
            ),
        decreases count - k,
    {
        let ghost held = plan_entries(*plan);
        match table.page_slot(token + k) {
            Ok((page_id, token_offset)) => {
                match plan.push(page_id, token_offset, row, source + k) {
                    Ok(_) => {
                        assert(plan_entries(*plan) =~= held.push(
                            copy_entry(*table, row as int, token + k, source + k),
                        ));
                    },
                    Err(error) => {
                        proof {
                            lemma_run_error_stays(
                                *table,
                                token as int,
                                source as int,
                                k + 1,
                                count as int,
                            );
                        }
                        return Err(error);
                    },
                }
            },
            Err(error) => {
                proof {
                    lemma_run_error_stays(
                        *table,
                        token as int,
                        source as int,
                        k + 1,
                        count as int,
                    );
                }
                return Err(error);
            },
        }
        k = k + 1;
    }
    Ok(())
}

impl InferenceEngine {
    /// Where the tokens of row `row` that are to be copied start, in the sequence and in the
    /// batch, and how many there are, for an append of `rounds` tokens.
    pub open spec fn append_run(
        &self,
        kv_lens: Seq<usize>,
        width: int,
        rounds: int,
        row: int,
    ) -> (int, int, int) {
        (kv_lens[row] as int, width, rounds)
    }

    /// The same for an import of the past: what is on the device already stays.
    pub open spec fn import_run(
        &self,
        batch: Seq<u64>,
        kv_lens: Seq<usize>,
        width: int,
        row: int,
    ) -> (int, int, int) {
        let resident = self.sequence(batch[row]).paged_kv.gpu_resident_token_len as int;
        let kept = if resident <= kv_lens[row] {
            resident
        } else {
            kv_lens[row] as int
        };
        (kept, width - kv_lens[row] + kept, kv_lens[row] - kept)
    }

    /// The entries of an append, of the first `rows` rows.
    pub open spec fn append_entries(
        &self,
        batch: Seq<u64>,
        kv_lens: Seq<usize>,
        width: int,
        rounds: int,
        keep: Seq<bool>,
        rows: int,
    ) -> Seq<CopyEntry>
        decreases rows,
    {
        if rows <= 0 {
            Seq::empty()
        } else {
            let head = self.append_entries(batch, kv_lens, width, rounds, keep, rows - 1);
            let (token, source, count) = self.append_run(kv_lens, width, rounds, rows - 1);
            if keep[rows - 1] {
                head + run_entries(
                    self.sequence(batch[rows - 1]).paged_kv,
                    rows - 1,
                    token,
                    source,
                    count,
                )
            } else {
                head
            }
        }
    }

    /// Why an append cannot be planned: what is wrong with the first bad row.
    pub open spec fn append_error(
        &self,
        batch: Seq<u64>,
        kv_lens: Seq<usize>,
        width: int,
        rounds: int,
        keep: Seq<bool>,
        rows: int,
    ) -> Option<PageCopyError>
        decreases rows,
    {
        if rows <= 0 {
            None
        } else {
            match self.append_error(batch, kv_lens, width, rounds, keep, rows - 1) {
                Some(error) => Some(error),
                None => {
                    let id = batch[rows - 1];
                    let (token, source, count) = self.append_run(kv_lens, width, rounds, rows - 1);
                    if !keep[rows - 1] {
                        None
                    } else if !self.has(id) {
                        Some(PageCopyError::MissingSequence { id })
                    } else {
                        match run_error(self.sequence(id).paged_kv, token, source, count) {
                            Some(error) => Some(PageCopyError::Storage(error)),
                            None => None,
                        }
                    }
                },
            }
        }
    }

    /// The entries of an import, of the first `rows` rows.
    pub open spec fn import_entries(
        &self,
        batch: Seq<u64>,
        kv_lens: Seq<usize>,
        width: int,
        rows: int,
    ) -> Seq<CopyEntry>
        decreases rows,
    {
        if rows <= 0 {
            Seq::empty()
        } else {
            let (token, source, count) = self.import_run(batch, kv_lens, width, rows - 1);
            self.import_entries(batch, kv_lens, width, rows - 1) + run_entries(
                self.sequence(batch[rows - 1]).paged_kv,
                rows - 1,
                token,
                source,
                count,
            )
        }
    }

    /// Why an import cannot be planned: what is wrong with the first bad row.
    pub open spec fn import_error(
        &self,
        batch: Seq<u64>,
        kv_lens: Seq<usize>,
        width: usize,
        rows: int,
    ) -> Option<PageCopyError>
        decreases rows,
    {
        if rows <= 0 {
            None
        } else {
            match self.import_error(batch, kv_lens, width, rows - 1) {
                Some(error) => Some(error),
                None => {
                    let id = batch[rows - 1];
                    let kv_len = kv_lens[rows - 1];
                    let (token, source, count) = self.import_run(
                        batch,
                        kv_lens,
                        width as int,
                        rows - 1,
                    );
                    if !self.has(id) {
                        Some(PageCopyError::MissingSequence { id })
                    } else if kv_len > width {
                        Some(PageCopyError::RowTooLong { row: (rows - 1) as usize, kv_len, width })
                    } else {
                        match run_error(self.sequence(id).paged_kv, token, source, count) {
                            Some(error) => Some(PageCopyError::Storage(error)),
                            None => None,
                        }
                    }
                },
            }
        }
    }

    proof fn lemma_append_error_stays(
        &self,
        batch: Seq<u64>,
        kv_lens: Seq<usize>,
        width: int,
        rounds: int,
        keep: Seq<bool>,
        few: int,
        all: int,
    )
        requires
            few <= all,
            self.append_error(batch, kv_lens, width, rounds, keep, few) is Some,
        ensures
            self.append_error(batch, kv_lens, width, rounds, keep, all) == self.append_error(
                batch,
                kv_lens,
                width,
                rounds,
                keep,
                few,
            ),
        decreases all - few,
    {
        if few < all {
            self.lemma_append_error_stays(batch, kv_lens, width, rounds, keep, few, all - 1);
        }
    }

    proof fn lemma_import_error_stays(
        &self,
        batch: Seq<u64>,
        kv_lens: Seq<usize>,
        width: usize,
        few: int,
        all: int,
    )
        requires
            few <= all,
            self.import_error(batch, kv_lens, width, few) is Some,
        ensures
            self.import_error(batch, kv_lens, width, all) == self.import_error(
                batch,
                kv_lens,
                width,
                few,
            ),
        decreases all - few,
    {
        if few < all {
            self.lemma_import_error_stays(batch, kv_lens, width, few, all - 1);
        }
    }

    /// Plans the copy of the tokens that a decode step of `rounds_done` rounds generated.
    pub fn build_paged_kv_native_append_plan(
        &self,
        batch: &Vec<u64>,
        kv_lens: &Vec<usize>,
        original_max_kv: usize,
        rounds_done: usize,
        keep: &Vec<bool>,
    ) -> (result: Result<PagedKvNativeAppendPlan, PageCopyError>)
        requires
            self.wf(),
            batch@.len() == kv_lens@.len(),
            batch@.len() == keep@.len(),
            original_max_kv + rounds_done <= usize::MAX,
            forall|r: int|
                0 <= r < batch@.len() && #[trigger] keep@[r] ==> kv_lens@[r] + rounds_done
                    <= usize::MAX,
        ensures
            match result {
                Ok(plan) => {
                    &&& plan.wf()
                    &&& self.append_error(
                        batch@,
                        kv_lens@,
                        original_max_kv as int,
                        rounds_done as int,
                        keep@,
                        batch@.len() as int,
                    ) is None
                    &&& plan_entries(plan) == self.append_entries(
                        batch@,
                        kv_lens@,
                        original_max_kv as int,
                        rounds_done as int,
                        keep@,
                        batch@.len() as int,
                    )
                },
                Err(error) => self.append_error(
                    batch@,
                    kv_lens@,
                    original_max_kv as int,
                    rounds_done as int,
                    keep@,
                    batch@.len() as int,
                ) == Some(error),
            },
    {
        let mut plan = PagedKvNativeAppendPlan::default();
        let mut r: usize = 0;
        assert(plan_entries(plan) =~= Seq::empty());
        while r < batch.len()
            invariant
                r <= batch@.len(),
                self.wf(),
                plan.wf(),
                batch@.len() == kv_lens@.len(),
                batch@.len() == keep@.len(),
                original_max_kv + rounds_done <= usize::MAX,
                forall|j: int|
                    0 <= j < batch@.len() && #[trigger] keep@[j] ==> kv_lens@[j] + rounds_done
                        <= usize::MAX,
                self.append_error(
                    batch@,
                    kv_lens@,
                    original_max_kv as int,
                    rounds_done as int,
                    keep@,
                    r as int,
                ) is None,
                plan_entries(plan) == self.append_entries(
                    batch@,
                    kv_lens@,
                    original_max_kv as int,
                    rounds_done as int,
                    keep@,
                    r as int,
                ),
            decreases batch@.len() - r,
        {
            if keep[r] {
                assert(keep@[r as int]);
                let outcome = match self.find(batch[r]) {
                    None => Err(PageCopyError::MissingSequence { id: batch[r] }),
                    Some(i) => {
                        assert(self.sequences@[i as int].wf());
                        match push_run(
                            &mut plan,
                            &self.sequences[i].paged_kv,
                            r,
                            kv_lens[r],
                            original_max_kv,
                            rounds_done,
                        ) {
                            Ok(_) => Ok(()),
                            Err(error) => Err(PageCopyError::Storage(error)),
                        }
                    },
                };
                if let Err(error) = outcome {
                    proof {
                        self.lemma_append_error_stays(
                            batch@,
                            kv_lens@,
                            original_max_kv as int,
                            rounds_done as int,
                            keep@,
                            r + 1,
                            batch@.len() as int,
                        );
                    }
                    return Err(error);
                }
            }
            r = r + 1;
        }
        Ok(plan)
    }

    /// Plans the copy of what of the past of a batch is not on the device yet.
    pub fn build_paged_kv_batch_past_import_plan(
        &self,
        batch: &Vec<u64>,
        kv_lens: &Vec<usize>,
        original_max_kv: usize,
    ) -> (result: Result<PagedKvNativeAppendPlan, PageCopyError>)
        requires
            self.wf(),
            batch@.len() == kv_lens@.len(),
        ensures
            match result {
                Ok(plan) => {
                    &&& plan.wf()
                    &&& self.import_error(
                        batch@,
                        kv_lens@,
                        original_max_kv,
                        batch@.len() as int,
                    ) is None
                    &&& plan_entries(plan) == self.import_entries(
                        batch@,
                        kv_lens@,
                        original_max_kv as int,
                        batch@.len() as int,
                    )
                },
                Err(error) => self.import_error(
                    batch@,
                    kv_lens@,
                    original_max_kv,
                    batch@.len() as int,
                ) == Some(error),
            },
    {
        let mut plan = PagedKvNativeAppendPlan::default();
        let mut r: usize = 0;
        assert(plan_entries(plan) =~= Seq::empty());
        while r < batch.len()
            invariant
                r <= batch@.len(),
                self.wf(),
                plan.wf(),
                batch@.len() == kv_lens@.len(),
                self.import_error(batch@, kv_lens@, original_max_kv, r as int) is None,
                plan_entries(plan) == self.import_entries(
                    batch@,
                    kv_lens@,
                    original_max_kv as int,
                    r as int,
                ),
            decreases batch@.len() - r,
        {
            let kv_len: usize = kv_lens[r];
            let outcome = match self.find(batch[r]) {
                None => Err(PageCopyError::MissingSequence { id: batch[r] }),
                Some(i) => {
                    assert(self.sequences@[i as int].wf());
                    if kv_len > original_max_kv {
                        Err(PageCopyError::RowTooLong { row: r, kv_len, width: original_max_kv })
                    } else {
                        let table = &self.sequences[i].paged_kv;
                        let resident: usize = table.gpu_resident_token_len();
                        let kept: usize = if resident <= kv_len {
                            resident
                        } else {
                            kv_len
                        };
                        match push_run(
                            &mut plan,
                            table,
                            r,
                            kept,
                            original_max_kv - kv_len + kept,
                            kv_len - kept,
                        ) {
                            Ok(_) => Ok(()),
                            Err(error) => Err(PageCopyError::Storage(error)),
                        }
                    }
                },
            };
            if let Err(error) = outcome {
                proof {
                    self.lemma_import_error_stays(
                        batch@,
                        kv_lens@,
                        original_max_kv,
                        r + 1,
                        batch@.len() as int,
                    );
                }
                return Err(error);
            }
            r = r + 1;
        }
        Ok(plan)
    }
}

/// Tokens that the kept rows among the first `rows` have, `extra` more than their past.
pub open spec fn kept_tokens(
    kv_lens: Seq<usize>,
    extra: int,
    keep: Seq<bool>,
    rows: int,
) -> int
    decreases rows,
{
    if rows <= 0 {
        0
    } else {
        kept_tokens(kv_lens, extra, keep, rows - 1) + if keep[rows - 1] {
            kv_lens[rows - 1] + extra
        } else {
            0
        }
    }
}

proof fn lemma_kept_tokens_grow(
    kv_lens: Seq<usize>,
    extra: int,
    keep: Seq<bool>,
    few: int,
    all: int,
)
    requires
        0 <= few <= all <= kv_lens.len(),
        extra >= 0,
    ensures
        0 <= kept_tokens(kv_lens, extra, keep, few) <= kept_tokens(kv_lens, extra, keep, all),
    decreases all,
{
    if all > 0 {
        if few < all {
            lemma_kept_tokens_grow(kv_lens, extra, keep, few, all - 1);
        } else {
            lemma_kept_tokens_grow(kv_lens, extra, keep, few - 1, all - 1);
        }
    }
}

/// `after` is `before` with the page tables of the kept rows among the first `rows` made to
/// cover `extra` tokens after their past, row after row.
pub open spec fn all_synced(
    before: InferenceEngine,
    after: InferenceEngine,
    batch: Seq<u64>,
    kv_lens: Seq<usize>,
    extra: int,
    keep: Seq<bool>,
    rows: int,
) -> bool
    decreases rows,
{
    if rows <= 0 {
        after == before
    } else if !keep[rows - 1] {
        all_synced(before, after, batch, kv_lens, extra, keep, rows - 1)
    } else {
        exists|middle: InferenceEngine|
            all_synced(before, middle, batch, kv_lens, extra, keep, rows - 1)
                && #[trigger] paged::synced(
                middle,
                after,
                batch[rows - 1],
                (kv_lens[rows - 1] + extra) as usize,
            )
    }
}

/// Only page tables, the allocator and statistics differ.
pub open spec fn same_but_pages(before: InferenceEngine, after: InferenceEngine) -> bool {
    &&& after.sequences@.len() == before.sequences@.len()
    &&& forall|i: int| #![trigger after.sequences@[i]]
        0 <= i < before.sequences@.len() ==> after.sequences@[i] == (Sequence {
            paged_kv: after.sequences@[i].paged_kv,
            ..before.sequences@[i]
        })
    &&& after == (InferenceEngine {
        sequences: after.sequences,
        paged_kv_allocator: after.paged_kv_allocator,
        stats: after.stats,
        ..before
    })
}

impl InferenceEngine {
    /// Whether the page counters can take the tokens of all kept rows.
    pub fn room_for_rows(&self, kv_lens: &Vec<usize>, extra: usize, keep: &Vec<bool>) -> (result:
        bool)
        requires
            kv_lens@.len() == keep@.len(),
        ensures
            result == self.paged_kv_allocator.spare(
                kept_tokens(kv_lens@, extra as int, keep@, keep@.len() as int),
            ),
    {
        let mut sum: u128 = (self.paged_kv_allocator.total_alloc_pages as u128) + (
        self.paged_kv_allocator.total_reused_pages as u128);
        let ghost start = sum;
        let mut r: usize = 0;
        while r < keep.len()
            invariant
                r <= keep@.len(),
                kv_lens@.len() == keep@.len(),
                start == self.paged_kv_allocator.total_alloc_pages
                    + self.paged_kv_allocator.total_reused_pages,
                sum == start + kept_tokens(kv_lens@, extra as int, keep@, r as int),
                start <= 2 * u64::MAX,
                sum <= 2 * u64::MAX,
            decreases keep@.len() - r,
        {
            if keep[r] {
                sum = sum + (kv_lens[r] as u128) + (extra as u128);
                if sum >= u64::MAX as u128 {
                    proof {
                        lemma_kept_tokens_grow(
                            kv_lens@,
                            extra as int,
                            keep@,
                            r + 1,
                            keep@.len() as int,
                        );
                    }
                    return false;
                }
            }
            r = r + 1;
        }
        sum < u64::MAX as u128
    }

    /// Makes the page tables of all kept rows cover `extra` tokens after their past.
    pub fn sync_rows(
        &mut self,
        batch: &Vec<u64>,
        kv_lens: &Vec<usize>,
        extra: usize,
        keep: &Vec<bool>,
    )
        requires
            old(self).wf(),
            batch@.len() == kv_lens@.len(),
            batch@.len() == keep@.len(),
            old(self).paged_kv_allocator.spare(
                kept_tokens(kv_lens@, extra as int, keep@, batch@.len() as int),
            ),
            forall|r: int|
                0 <= r < batch@.len() && #[trigger] keep@[r] ==> kv_lens@[r] + extra <= usize::MAX,
        ensures
            final(self).wf(),
            all_synced(
                *old(self),
                *final(self),
                batch@,
                kv_lens@,
                extra as int,
                keep@,
                batch@.len() as int,
            ),
            same_but_pages(*old(self), *final(self)),
    {
        let ghost before = *self;
        let mut r: usize = 0;
        let ghost need = kept_tokens(kv_lens@, extra as int, keep@, batch@.len() as int);
        while r < batch.len()
            invariant
                r <= batch@.len(),
                self.wf(),
                before.wf(),
                batch@.len() == kv_lens@.len(),
                batch@.len() == keep@.len(),
                need == kept_tokens(kv_lens@, extra as int, keep@, batch@.len() as int),
                self.paged_kv_allocator.spare(
                    need - kept_tokens(kv_lens@, extra as int, keep@, r as int),
                ),
                forall|j: int|
                    0 <= j < batch@.len() && #[trigger] keep@[j] ==> kv_lens@[j] + extra
                        <= usize::MAX,
                all_synced(before, *self, batch@, kv_lens@, extra as int, keep@, r as int),
                same_but_pages(before, *self),
            decreases batch@.len() - r,
        {
            if keep[r] {
                assert(keep@[r as int]);
                let ghost middle = *self;
                let target: usize = kv_lens[r] + extra;
                proof {
                    lemma_kept_tokens_grow(
                        kv_lens@,
                        extra as int,
                        keep@,
                        r + 1,
                        batch@.len() as int,
                    );
                }
                self.sync_paged_kv_for_sequence(batch[r], target);
                proof {
                    assert(paged::synced(middle, *self, batch@[r as int], target));
                    if middle.has(batch@[r as int]) {
                        let k = state::index_of(middle.sequences@, batch@[r as int]);
                        paged::lemma_missing_at_most_tokens(
                            middle.paged_kv_allocator,
                            middle.sequences@[k].paged_kv,
                            target as int,
                        );
                        assert forall|i: int| #![trigger self.sequences@[i]]
                            0 <= i < before.sequences@.len() implies self.sequences@[i] == (
                        Sequence {
                            paged_kv: self.sequences@[i].paged_kv,
                            ..before.sequences@[i]
                        }) by {
                            assert(middle.sequences@[i] == (Sequence {
                                paged_kv: middle.sequences@[i].paged_kv,
                                ..before.sequences@[i]
                            }));
                        }
                    }
                    assert(all_synced(
                        before,
                        *self,
                        batch@,
                        kv_lens@,
                        extra as int,
                        keep@,
                        r + 1,
                    ));
                }
            }
            r = r + 1;
        }
    }

    /// Whether what a decode step of `rounds_done` rounds generated is to be copied into pages:
    /// pages are in use, there is no memory pressure, and the past is there already.
    pub fn begin_append(
        &mut self,
        batch: &Vec<u64>,
        kv_lens: &Vec<usize>,
        rounds_done: usize,
        keep: &Vec<bool>,
        gpu_used: u64,
    ) -> (result: bool)
        requires
            old(self).wf(),
        ensures
            final(self).wf(),
            result == (old(self).pages_in_use() && rounds_done > 0 && !old(self).under_pressure(
                gpu_used,
            ) && old(self).batch_resident(batch@, kv_lens@, 0, keep@)),
            if rounds_done > 0 && old(self).under_pressure(gpu_used) {
                residency::relieved(*old(self), *final(self))
            } else {
                *final(self) == *old(self)
            },
    {
        if !self.settings.paged_kv_native_append || self.paged_kv_gpu_store.is_none()
            || rounds_done == 0 {
            return false;
        }
        if self.skip_paged_kv_gpu_copy_for_pressure(gpu_used) {
            return false;
        }
        self.paged_kv_batch_past_is_resident(batch, kv_lens, keep)
    }

    /// Whether the past of a batch is to be copied into pages.
    pub fn begin_import(&mut self, gpu_used: u64) -> (result: bool)
        requires
            old(self).wf(),
        ensures
            final(self).wf(),
            result == (old(self).pages_in_use() && !old(self).under_pressure(gpu_used)),
            if old(self).under_pressure(gpu_used) {
                residency::relieved(*old(self), *final(self))
            } else {
                *final(self) == *old(self)
            },
    {
        if !self.settings.paged_kv_native_append || self.paged_kv_gpu_store.is_none() {
            return false;
        }
        !self.skip_paged_kv_gpu_copy_for_pressure(gpu_used)
    }

    /// Whether the copy of what the kept rows generated can be planned: lengths stay in range,
    /// and so do the counters of the pages.
    pub fn room_to_append(
        &self,
        kv_lens: &Vec<usize>,
        original_max_kv: usize,
        rounds_done: usize,
        keep: &Vec<bool>,
    ) -> (result: bool)
        ensures
            result == ({
                &&& kv_lens@.len() == keep@.len()
                &&& original_max_kv + rounds_done <= usize::MAX
                &&& self.paged_kv_allocator.spare(
                    kept_tokens(kv_lens@, rounds_done as int, keep@, keep@.len() as int),
                )
                &&& forall|r: int|
                    0 <= r < keep@.len() && #[trigger] keep@[r] ==> kv_lens@[r] + rounds_done
                        <= usize::MAX
            }),
    {
        if kv_lens.len() != keep.len() || original_max_kv > usize::MAX - rounds_done {
            return false;
        }
        if !self.room_for_rows(kv_lens, rounds_done, keep) {
            return false;
        }
        let mut r: usize = 0;
        while r < keep.len()
            invariant
                r <= keep@.len(),
                kv_lens@.len() == keep@.len(),
                forall|j: int|
                    0 <= j < r && #[trigger] keep@[j] ==> kv_lens@[j] + rounds_done <= usize::MAX,
            decreases keep@.len() - r,
        {
            if keep[r] && kv_lens[r] > usize::MAX - rounds_done {
                assert(keep@[r as int] && kv_lens@[r as int] + rounds_done > usize::MAX);
                return false;
            }
            r = r + 1;
        }
        true
    }

    /// Gives the kept rows pages for what they generated, and plans the copy.
    pub fn prepare_append(
        &mut self,
        batch: &Vec<u64>,
        kv_lens: &Vec<usize>,
        original_max_kv: usize,
        rounds_done: usize,
        keep: &Vec<bool>,
    ) -> (result: Result<PagedKvNativeAppendPlan, PageCopyError>)
        requires
            old(self).wf(),
            original_max_kv + rounds_done <= usize::MAX,
            batch@.len() == kv_lens@.len() && batch@.len() == keep@.len() ==> {
                &&& old(self).paged_kv_allocator.spare(
                    kept_tokens(kv_lens@, rounds_done as int, keep@, batch@.len() as int),
                )
                &&& forall|r: int|
                    0 <= r < batch@.len() && #[trigger] keep@[r] ==> kv_lens@[r] + rounds_done
                        <= usize::MAX
            },
        ensures
            final(self).wf(),
            batch@.len() != kv_lens@.len() || batch@.len() != keep@.len() ==> {
                &&& *final(self) == *old(self)
                &&& result == Err::<PagedKvNativeAppendPlan, PageCopyError>(
                    PageCopyError::MetadataMismatch {
                        batch: batch@.len() as usize,
                        kv_lens: kv_lens@.len() as usize,
                        keep: keep@.len() as usize,
                    },
                )
            },
            batch@.len() == kv_lens@.len() && batch@.len() == keep@.len() ==> {
                &&& all_synced(
                    *old(self),
                    *final(self),
                    batch@,
                    kv_lens@,
                    rounds_done as int,
                    keep@,
                    batch@.len() as int,
                )
                &&& same_but_pages(*old(self), *final(self))
                &&& match result {
                    Ok(plan) => {
                        &&& plan.wf()
                        &&& final(self).append_error(
                            batch@,
                            kv_lens@,
                            original_max_kv as int,
                            rounds_done as int,
                            keep@,
                            batch@.len() as int,
                        ) is None
                        &&& plan_entries(plan) == final(self).append_entries(
                            batch@,
                            kv_lens@,
                            original_max_kv as int,
                            rounds_done as int,
                            keep@,
                            batch@.len() as int,
                        )
                    },
                    Err(error) => final(self).append_error(
                        batch@,
                        kv_lens@,
                        original_max_kv as int,
                        rounds_done as int,
                        keep@,
                        batch@.len() as int,
                    ) == Some(error),
                }
            },
    {
        if batch.len() != kv_lens.len() || batch.len() != keep.len() {
            return Err(
                PageCopyError::MetadataMismatch {
                    batch: batch.len(),
                    kv_lens: kv_lens.len(),
                    keep: keep.len(),
                },
            );
        }
        self.sync_rows(batch, kv_lens, rounds_done, keep);
        self.build_paged_kv_native_append_plan(
            batch,
            kv_lens,
            original_max_kv,
            rounds_done,
            keep,
        )
    }

    /// Gives all rows pages for their past, and plans the copy of what is not there yet.
    pub fn prepare_import(
        &mut self,
        batch: &Vec<u64>,
        kv_lens: &Vec<usize>,
        original_max_kv: usize,
    ) -> (result: Result<PagedKvNativeAppendPlan, PageCopyError>)
        requires
            old(self).wf(),
            batch@.len() == kv_lens@.len() ==> old(self).paged_kv_allocator.spare(
                kept_tokens(kv_lens@, 0, every_row(batch@.len()), batch@.len() as int),
            ),
        ensures
            final(self).wf(),
            batch@.len() != kv_lens@.len() ==> {
                &&& *final(self) == *old(self)
                &&& result == Err::<PagedKvNativeAppendPlan, PageCopyError>(
                    PageCopyError::MetadataMismatch {
                        batch: batch@.len() as usize,
                        kv_lens: kv_lens@.len() as usize,
                        keep: batch@.len() as usize,
                    },
                )
            },
            batch@.len() == kv_lens@.len() ==> {
                &&& all_synced(
                    *old(self),
                    *final(self),
                    batch@,
                    kv_lens@,
                    0,
                    every_row(batch@.len()),
                    batch@.len() as int,
                )
                &&& same_but_pages(*old(self), *final(self))
                &&& match result {
                    Ok(plan) => {
                        &&& plan.wf()
                        &&& final(self).import_error(
                            batch@,
                            kv_lens@,
                            original_max_kv,
                            batch@.len() as int,
                        ) is None
                        &&& plan_entries(plan) == final(self).import_entries(
                            batch@,
                            kv_lens@,
                            original_max_kv as int,
                            batch@.len() as int,
                        )
                    },
                    Err(error) => final(self).import_error(
                        batch@,
                        kv_lens@,
                        original_max_kv,
                        batch@.len() as int,
                    ) == Some(error),
                }
            },
    {
        if batch.len() != kv_lens.len() {
            return Err(
                PageCopyError::MetadataMismatch {
                    batch: batch.len(),
                    kv_lens: kv_lens.len(),
                    keep: batch.len(),
                },
            );
        }
        let keep = keep_all(batch.len());
        self.sync_rows(batch, kv_lens, 0, &keep);
        self.build_paged_kv_batch_past_import_plan(batch, kv_lens, original_max_kv)
    }

    /// Prepares the copy of a plan from the model's cache buffers into pages.
    pub fn copy_into_pages(&mut self, buffers: &LayerKvCaches, plan: &PagedKvNativeAppendPlan) -> (result:
        Result<Option<GpuLayerCopies>, PagedKvGpuError>)
        requires
            old(self).wf(),
            old(self).paged_kv_gpu_store matches Some(store) ==> store.can_hold(
                gpu_store::largest_id(plan.page_ids@) as u64,
            ),
        ensures
            final(self).wf(),
            *final(self) == (InferenceEngine {
                paged_kv_gpu_store: final(self).paged_kv_gpu_store,
                ..*old(self)
            }),
            old(self).settings.num_layers != buffers@.len() ==> {
                &&& *final(self) == *old(self)
                &&& result == Err::<Option<GpuLayerCopies>, PagedKvGpuError>(
                    PagedKvGpuError::LayerCountMismatch {
                        expected: old(self).settings.num_layers,
                        actual: buffers@.len() as usize,
                    },
                )
            },
            old(self).settings.num_layers == buffers@.len() ==> match old(
                self,
            ).paged_kv_gpu_store {
                None => {
                    &&& *final(self) == *old(self)
                    &&& (result matches Err(PagedKvGpuError::NotAllocated))
                },
                Some(store) => match result {
                    Ok(Some(copies)) => {
                        &&& plan.page_ids@.len() > 0
                        &&& !store.copy_refused(buffers@.len() as int)
                        &&& final(self).paged_kv_gpu_store matches Some(grown) && grown.grown_from(
                            store,
                            gpu_store::largest_id(plan.page_ids@) as u64,
                        ) && grown.pages == Some(copies.pages)
                        &&& copies.ready == gpu_store::leading_layers(buffers@)
                    },
                    Ok(None) => plan.page_ids@.len() == 0 && *final(self) == *old(self),
                    Err(PagedKvGpuError::NotAllocated) => {
                        &&& plan.page_ids@.len() > 0
                        &&& !store.copy_refused(buffers@.len() as int)
                        &&& final(self).paged_kv_gpu_store matches Some(grown) && grown.grown_from(
                            store,
                            gpu_store::largest_id(plan.page_ids@) as u64,
                        ) && grown.pages is None
                    },
                    Err(PagedKvGpuError::UnsupportedDtype) => {
                        &&& plan.page_ids@.len() > 0
                        &&& !tensors::dtype_is_bf16(store.dtype)
                        &&& *final(self) == *old(self)
                    },
                    Err(PagedKvGpuError::LayerCountMismatch { expected, actual }) => {
                        &&& plan.page_ids@.len() > 0
                        &&& tensors::dtype_is_bf16(store.dtype)
                        &&& expected == store.layout.num_layers
                        &&& actual == buffers@.len()
                        &&& expected != actual
                        &&& *final(self) == *old(self)
                    },
                    Err(PagedKvGpuError::Failed(_)) => {
                        &&& plan.page_ids@.len() > 0
                        &&& !store.copy_refused(buffers@.len() as int)
                        &&& store.must_grow(gpu_store::largest_id(plan.page_ids@) as u64)
                        &&& !store.on_cpu()
                        &&& *final(self) == *old(self)
                    },
                    Err(_) => false,
                },
            },
    {
        if buffers.len() != self.settings.num_layers {
            return Err(
                PagedKvGpuError::LayerCountMismatch {
                    expected: self.settings.num_layers,
                    actual: buffers.len(),
                },
            );
        }
        match self.paged_kv_gpu_store.as_mut() {
            None => Err(PagedKvGpuError::NotAllocated),
            Some(store) => store.copy_layers_from_cache_buffers(buffers.as_slice(), plan),
        }
    }

    /// Takes note that the kept rows are on the device, up to `extra` tokens after their past.
    pub fn mark_resident(
        &mut self,
        batch: &Vec<u64>,
        kv_lens: &Vec<usize>,
        extra: usize,
        keep: &Vec<bool>,
    )
        requires
            old(self).wf(),
            batch@.len() == kv_lens@.len(),
            batch@.len() == keep@.len(),
            batch@.no_duplicates(),
            forall|r: int|
                0 <= r < batch@.len() && #[trigger] keep@[r] ==> kv_lens@[r] + extra <= usize::MAX,
        ensures
            final(self).wf(),
            marked(
                *old(self),
                final(self).sequences@,
                batch@,
                kv_lens@,
                extra as int,
                keep@,
                batch@.len() as int,
            ),
            *final(self) == (InferenceEngine {
                sequences: final(self).sequences,
                stats: paged::refreshed(
                    old(self).stats,
                    old(self).paged_kv_allocator,
                    final(self).sequences@,
                    old(self).paged_kv_gpu_store,
                ),
                ..*old(self)
            }),
    {
        let ghost before = *self;
        let mut r: usize = 0;
        while r < batch.len()
            invariant
                r <= batch@.len(),
                self.wf(),
                before.wf(),
                batch@.len() == kv_lens@.len(),
                batch@.len() == keep@.len(),
                batch@.no_duplicates(),
                forall|j: int|
                    0 <= j < batch@.len() && #[trigger] keep@[j] ==> kv_lens@[j] + extra
                        <= usize::MAX,
                marked(
                    before,
                    self.sequences@,
                    batch@,
                    kv_lens@,
                    extra as int,
                    keep@,
                    r as int,
                ),
                *self == (InferenceEngine { sequences: self.sequences, ..before }),
            decreases batch@.len() - r,
        {
            let ghost middle = *self;
            if keep[r] {
                assert(keep@[r as int]);
                match self.find(batch[r]) {
                    Some(i) => {
                        let seq: &mut Sequence = &mut self.sequences[i];
                        seq.paged_kv.mark_gpu_resident(kv_lens[r] + extra);
                        proof {
                            assert(middle.sequences@[i as int].wf());
                            let value = self.sequences@[i as int];
                            assert(self.sequences@ =~= middle.sequences@.update(i as int, value));
                            assert forall|k: int| #![trigger self.sequences@[k]]
                                0 <= k < middle.sequences@.len() implies {
                                &&& self.sequences@[k].wf()
                                &&& self.sequences@[k].id == middle.sequences@[k].id
                            } by {
                                assert(middle.sequences@[k].wf());
                            }
                            state::lemma_same_books_keep_wf(middle, *self);
                            lemma_mark_one(
                                before,
                                middle.sequences@,
                                self.sequences@,
                                batch@,
                                kv_lens@,
                                extra as int,
                                keep@,
                                r as int,
                                i as int,
                            );
                        }
                    },
                    None => {
                        proof {
                            lemma_mark_none(
                                before,
                                middle.sequences@,
                                batch@,
                                kv_lens@,
                                extra as int,
                                keep@,
                                r as int,
                            );
                        }
                    },
                }
            } else {
                proof {
                    lemma_mark_none(
                        before,
                        middle.sequences@,
                        batch@,
                        kv_lens@,
                        extra as int,
                        keep@,
                        r as int,
                    );
                }
            }
            r = r + 1;
        }
        self.refresh_paged_kv_stats();
    }
}

/// Every row is kept.
pub open spec fn every_row(rows: nat) -> Seq<bool> {
    Seq::new(rows, |r: int| true)
}

fn keep_all(rows: usize) -> (result: Vec<bool>)
    ensures
        result@ == every_row(rows as nat),
{
    let mut keep: Vec<bool> = Vec::new();
    let mut r: usize = 0;
    while r < rows
        invariant
            r <= rows,
            keep@ =~= every_row(r as nat),
        decreases rows - r,
    {
        keep.push(true);
        r = r + 1;
    }
    keep
}

/// The sequence counts as being on the device up to `tokens` tokens, or all that it has.
pub open spec fn on_device(sequence: Sequence, tokens: int) -> Sequence {
    Sequence {
        paged_kv: PagedKvSequence {
            gpu_resident_token_len: if tokens <= sequence.paged_kv.token_len {
                tokens as usize
            } else {
                sequence.paged_kv.token_len
            },
            ..sequence.paged_kv
        },
        ..sequence
    }
}

/// `after` are the sequences of `before` with the kept rows among the first `rows` marked.
pub open spec fn marked(
    before: InferenceEngine,
    after: Seq<Sequence>,
    batch: Seq<u64>,
    kv_lens: Seq<usize>,
    extra: int,
    keep: Seq<bool>,
    rows: int,
) -> bool {
    &&& after.len() == before.sequences@.len()
    &&& forall|r: int| #![trigger batch[r]]
        0 <= r < rows && keep[r] && before.has(batch[r]) ==> {
            let i = state::index_of(before.sequences@, batch[r]);
            after[i] == on_device(before.sequences@[i], kv_lens[r] + extra)
        }
    &&& forall|i: int| #![trigger after[i]]
        0 <= i < after.len() && (forall|r: int| #![trigger batch[r]]
            0 <= r < rows && keep[r] ==> batch[r] != before.sequences@[i].id) ==> after[i]
            == before.sequences@[i]
    &&& forall|i: int| #![trigger after[i]]
        0 <= i < after.len() ==> after[i].id == before.sequences@[i].id
}

proof fn lemma_mark_one(
    before: InferenceEngine,
    middle: Seq<Sequence>,
    after: Seq<Sequence>,
    batch: Seq<u64>,
    kv_lens: Seq<usize>,
    extra: int,
    keep: Seq<bool>,
    r: int,
    i: int,
)
    requires
        before.wf(),
        0 <= r < batch.len(),
        batch.len() == keep.len(),
        keep[r],
        batch.no_duplicates(),
        marked(before, middle, batch, kv_lens, extra, keep, r),
        0 <= i < middle.len(),
        middle[i].id == batch[r],
        after == middle.update(i, on_device(middle[i], kv_lens[r] + extra)),
    ensures
        marked(before, after, batch, kv_lens, extra, keep, r + 1),
{
    state::lemma_index(before.sequences@, i);
    assert(before.sequences@[i].id == batch[r]);
    assert(middle[i] == before.sequences@[i]) by {
        assert forall|q: int| #![trigger batch[q]] 0 <= q < r && keep[q] implies batch[q]
            != before.sequences@[i].id by {
            assert(batch[q] != batch[r]);
        }
    }
    assert forall|q: int| #![trigger batch[q]] 0 <= q < r + 1 && keep[q] && before.has(
        batch[q],
    ) implies after[state::index_of(before.sequences@, batch[q])] == on_device(
        before.sequences@[state::index_of(before.sequences@, batch[q])],
        kv_lens[q] + extra,
    ) by {
        let k = state::index_of(before.sequences@, batch[q]);
        assert(before.sequences@[k].id == batch[q]);
        if q < r {
            assert(batch[q] != batch[r]);
            assert(k != i);
        }
    }
    assert forall|k: int| #![trigger after[k]]
        0 <= k < after.len() && (forall|q: int| #![trigger batch[q]]
            0 <= q < r + 1 && keep[q] ==> batch[q] != before.sequences@[k].id) implies after[k]
        == before.sequences@[k] by {
        assert(batch[r] != before.sequences@[k].id);
        assert(k != i);
        assert(middle[k] == before.sequences@[k]);
    }
    assert forall|k: int| #![trigger after[k]] 0 <= k < after.len() implies after[k].id
        == before.sequences@[k].id by {
        assert(middle[k].id == before.sequences@[k].id);
    }
}

proof fn lemma_mark_none(
    before: InferenceEngine,
    middle: Seq<Sequence>,
    batch: Seq<u64>,
    kv_lens: Seq<usize>,
    extra: int,
    keep: Seq<bool>,
    r: int,
)
    requires
        0 <= r < batch.len(),
        marked(before, middle, batch, kv_lens, extra, keep, r),
        !keep[r] || !state::has_id(middle, batch[r]),
    ensures
        marked(before, middle, batch, kv_lens, extra, keep, r + 1),
{
    assert forall|q: int| #![trigger batch[q]] 0 <= q < r + 1 && keep[q] && before.has(
        batch[q],
    ) implies middle[state::index_of(before.sequences@, batch[q])] == on_device(
        before.sequences@[state::index_of(before.sequences@, batch[q])],
        kv_lens[q] + extra,
    ) by {
        if q == r {
            let k = state::index_of(before.sequences@, batch[r]);
            assert(middle[k].id == batch[r]);
            assert(state::has_id(middle, batch[r]));
        }
    }
    assert forall|k: int| #![trigger middle[k]]
        0 <= k < middle.len() && (forall|q: int| #![trigger batch[q]]
            0 <= q < r + 1 && keep[q] ==> batch[q] != before.sequences@[k].id) implies middle[k]
        == before.sequences@[k] by {
        assert forall|q: int| #![trigger batch[q]] 0 <= q < r && keep[q] implies batch[q]
            != before.sequences@[k].id by {}
    }
}

/// After the page tables of the kept rows were made to cover `extra` tokens after their past,
/// each of them covers exactly that, and every sequence is where it was.
pub proof fn law_synced_rows_are_covered(
    before: InferenceEngine,
    after: InferenceEngine,
    batch: Seq<u64>,
    kv_lens: Seq<usize>,
    extra: int,
    keep: Seq<bool>,
    rows: int,
)
    requires
        state::unique_ids(before.sequences@),
        batch.no_duplicates(),
        0 <= rows <= batch.len(),
        batch.len() == keep.len(),
        batch.len() == kv_lens.len(),
        0 <= extra,
        forall|r: int| #![trigger keep[r]]
            0 <= r < batch.len() && keep[r] ==> before.has(batch[r]) && kv_lens[r] + extra
                <= usize::MAX,
        all_synced(before, after, batch, kv_lens, extra, keep, rows),
    ensures
        after.sequences@.len() == before.sequences@.len(),
        forall|i: int| #![trigger after.sequences@[i]]
            0 <= i < before.sequences@.len() ==> after.sequences@[i].id == before.sequences@[i].id,
        forall|r: int| #![trigger keep[r]]
            0 <= r < rows && keep[r] ==> after.sequence(batch[r]).paged_kv.token_len == kv_lens[r]
                + extra,
    decreases rows,
{
    if rows > 0 {
        if !keep[rows - 1] {
            law_synced_rows_are_covered(before, after, batch, kv_lens, extra, keep, rows - 1);
        } else {
            let id = batch[rows - 1];
            let target = (kv_lens[rows - 1] + extra) as usize;
            let middle = choose|middle: InferenceEngine|
                all_synced(before, middle, batch, kv_lens, extra, keep, rows - 1)
                    && #[trigger] paged::synced(middle, after, id, target);
            law_synced_rows_are_covered(before, middle, batch, kv_lens, extra, keep, rows - 1);
            state::lemma_same_ids_same_places(before.sequences@, middle.sequences@);
            assert(before.has(id));
            assert(state::has_id(middle.sequences@, id));
            let at = state::index_of(middle.sequences@, id);
            assert(middle.sequences@[at].id == id);
            let own = after.sequences@[at];
            state::lemma_update_keeps_ids(middle.sequences@, at, own);
            assert forall|r: int| #![trigger keep[r]] 0 <= r < rows && keep[r] implies
                after.sequence(batch[r]).paged_kv.token_len == kv_lens[r] + extra by {
                assert(before.has(batch[r]));
                assert(state::has_id(middle.sequences@, batch[r]));
                assert(state::index_of(after.sequences@, batch[r]) == state::index_of(
                    middle.sequences@,
                    batch[r],
                ));
                if r < rows - 1 {
                    assert(batch[r] != id);
                    let k = state::index_of(middle.sequences@, batch[r]);
                    assert(middle.sequences@[k].id == batch[r]);
                }
            }
            assert forall|i: int| #![trigger after.sequences@[i]]
                0 <= i < before.sequences@.len() implies after.sequences@[i].id
                == before.sequences@[i].id by {
                assert(middle.sequences@[i].id == before.sequences@[i].id);
            }
        }
    }
}

proof fn lemma_append_lists(
    engine: InferenceEngine,
    batch: Seq<u64>,
    kv_lens: Seq<usize>,
    width: int,
    rounds: int,
    keep: Seq<bool>,
    rows: int,
    row: int,
    round: int,
) -> (k: int)
    requires
        0 <= row < rows,
        keep[row],
        0 <= round < rounds,
    ensures
        0 <= k < engine.append_entries(batch, kv_lens, width, rounds, keep, rows).len(),
        engine.append_entries(batch, kv_lens, width, rounds, keep, rows)[k] == copy_entry(
            engine.sequence(batch[row]).paged_kv,
            row,
            kv_lens[row] + round,
            width + round,
        ),
    decreases rows,
{
    let head = engine.append_entries(batch, kv_lens, width, rounds, keep, rows - 1);
    if row < rows - 1 {
        lemma_append_lists(engine, batch, kv_lens, width, rounds, keep, rows - 1, row, round)
    } else {
        head.len() + round
    }
}

proof fn lemma_append_listed(
    engine: InferenceEngine,
    batch: Seq<u64>,
    kv_lens: Seq<usize>,
    width: int,
    rounds: int,
    keep: Seq<bool>,
    rows: int,
    k: int,
) -> (place: (int, int))
    requires
        rounds >= 0,
        0 <= k < engine.append_entries(batch, kv_lens, width, rounds, keep, rows).len(),
    ensures
        0 <= place.0 < rows,
        keep[place.0],
        0 <= place.1 < rounds,
        engine.append_entries(batch, kv_lens, width, rounds, keep, rows)[k] == copy_entry(
            engine.sequence(batch[place.0]).paged_kv,
            place.0,
            kv_lens[place.0] + place.1,
            width + place.1,
        ),
    decreases rows,
{
    let head = engine.append_entries(batch, kv_lens, width, rounds, keep, rows - 1);
    if k < head.len() {
        lemma_append_listed(engine, batch, kv_lens, width, rounds, keep, rows - 1, k)
    } else {
        (rows - 1, k - head.len())
    }
}

/// What a decode step appended to the batch is copied to where it belongs: the token of each round,
/// in each kept row, from behind the past in that row of the batch to the place of the same token
/// in the pages of that row's sequence.
pub proof fn law_appended_tokens_are_copied(
    engine: InferenceEngine,
    plan: PagedKvNativeAppendPlan,
    batch: Seq<u64>,
    kv_lens: Seq<usize>,
    width: int,
    rounds: int,
    keep: Seq<bool>,
    row: int,
    round: int,
)
    requires
        plan_entries(plan) == engine.append_entries(
            batch,
            kv_lens,
            width,
            rounds,
            keep,
            batch.len() as int,
        ),
        0 <= row < batch.len(),
        0 <= round < rounds,
    ensures
        keep[row] ==> exists|k: int|
            0 <= k < plan.page_ids@.len() && #[trigger] plan.row_indices@[k] == row as u32
                && plan.source_token_indices@[k] == (width + round) as u32 && plan.page_ids@[k]
                == engine.sequence(batch[row]).paged_kv.slot(kv_lens[row] + round).0 as u32
                && plan.token_offsets@[k] == engine.sequence(batch[row]).paged_kv.slot(
                kv_lens[row] + round,
            ).1 as u32,
{
    if keep[row] {
        let n = batch.len() as int;
        let k = lemma_append_lists(engine, batch, kv_lens, width, rounds, keep, n, row, round);
        assert(plan_entries(plan).len() == plan.page_ids@.len());
        let entry = plan_entries(plan)[k];
        assert(entry.row == plan.row_indices@[k]);
    }
}

/// Nothing but that is copied: each copy is of a kept row, and from behind the past.
pub proof fn law_only_kept_rows_are_copied(
    engine: InferenceEngine,
    plan: PagedKvNativeAppendPlan,
    batch: Seq<u64>,
    kv_lens: Seq<usize>,
    width: int,
    rounds: int,
    keep: Seq<bool>,
    k: int,
)
    requires
        plan_entries(plan) == engine.append_entries(
            batch,
            kv_lens,
            width,
            rounds,
            keep,
            batch.len() as int,
        ),
        batch.len() <= u32::MAX,
        0 <= width,
        0 <= rounds,
        width + rounds <= u32::MAX,
        0 <= k < plan.page_ids@.len(),
    ensures
        plan.row_indices@[k] < batch.len(),
        keep[plan.row_indices@[k] as int],
        width <= plan.source_token_indices@[k] < width + rounds,
{
    let n = batch.len() as int;
    assert(plan_entries(plan).len() == plan.page_ids@.len());
    let (row, round) = lemma_append_listed(engine, batch, kv_lens, width, rounds, keep, n, k);
    let entry = plan_entries(plan)[k];
    assert(entry.row == plan.row_indices@[k] && entry.source == plan.source_token_indices@[k]);
}

proof fn lemma_import_lists(
    engine: InferenceEngine,
    batch: Seq<u64>,
    kv_lens: Seq<usize>,
    width: int,
    rows: int,
    row: int,
    token: int,
) -> (k: int)
    requires
        0 <= row < rows,
        engine.sequence(batch[row]).paged_kv.gpu_resident_token_len <= token < kv_lens[row],
    ensures
        0 <= k < engine.import_entries(batch, kv_lens, width, rows).len(),
        engine.import_entries(batch, kv_lens, width, rows)[k] == copy_entry(
            engine.sequence(batch[row]).paged_kv,
            row,
            token,
            width - kv_lens[row] + token,
        ),
    decreases rows,
{
    let head = engine.import_entries(batch, kv_lens, width, rows - 1);
    if row < rows - 1 {
        lemma_import_lists(engine, batch, kv_lens, width, rows - 1, row, token)
    } else {
        let resident = engine.sequence(batch[row]).paged_kv.gpu_resident_token_len as int;
        head.len() + (token - resident)
    }
}

/// Every token of a row's past that its pages on the device lack is copied there, from as far
/// before the end of the past in the batch as it is before the end of the row's own past.
pub proof fn law_missing_tokens_are_imported(
    engine: InferenceEngine,
    plan: PagedKvNativeAppendPlan,
    batch: Seq<u64>,
    kv_lens: Seq<usize>,
    width: int,
    row: int,
    token: int,
)
    requires
        plan_entries(plan) == engine.import_entries(batch, kv_lens, width, batch.len() as int),
        0 <= row < batch.len(),
        engine.sequence(batch[row]).paged_kv.gpu_resident_token_len <= token < kv_lens[row],
        kv_lens[row] <= width <= u32::MAX,
    ensures
        exists|k: int|
            0 <= k < plan.page_ids@.len() && #[trigger] plan.row_indices@[k] == row as u32 && width
                - plan.source_token_indices@[k] == kv_lens[row] - token && plan.page_ids@[k]
                == engine.sequence(batch[row]).paged_kv.slot(token).0 as u32
                && plan.token_offsets@[k] == engine.sequence(batch[row]).paged_kv.slot(
                token,
            ).1 as u32,
{
    let n = batch.len() as int;
    let k = lemma_import_lists(engine, batch, kv_lens, width, n, row, token);
    assert(plan_entries(plan).len() == plan.page_ids@.len());
    let entry = plan_entries(plan)[k];
    assert(entry.row == plan.row_indices@[k]);
}

/// Afterwards each kept row counts as being on the device up to its past and what was appended, or
/// up to what its pages cover if that is less; the other sequences count as they did.
pub proof fn law_kept_rows_are_on_the_device(
    before: InferenceEngine,
    after: Seq<Sequence>,
    batch: Seq<u64>,
    kv_lens: Seq<usize>,
    extra: int,
    keep: Seq<bool>,
    row: int,
    i: int,
)
    requires
        before.wf(),
        batch.len() == kv_lens.len(),
        batch.len() == keep.len(),
        extra >= 0,
        marked(before, after, batch, kv_lens, extra, keep, batch.len() as int),
        0 <= row < batch.len(),
        0 <= i < after.len(),
    ensures
        keep[row] && before.sequences@[i].id == batch[row] ==> {
            let table = after[i].paged_kv;
            &&& table.gpu_resident_token_len <= table.token_len
            &&& table.gpu_resident_token_len <= kv_lens[row] + extra
            &&& table.gpu_resident_token_len == table.token_len || table.gpu_resident_token_len
                == kv_lens[row] + extra
            &&& table.token_len == before.sequences@[i].paged_kv.token_len
        },
        !batch.contains(before.sequences@[i].id) ==> after[i] == before.sequences@[i],
{
    if keep[row] && before.sequences@[i].id == batch[row] {
        state::lemma_index(before.sequences@, i);
        assert(before.has(batch[row]));
        assert(after[i] == on_device(before.sequences@[i], kv_lens[row] + extra));
    }
    if !batch.contains(before.sequences@[i].id) {
        assert forall|r: int| #![trigger batch[r]] 0 <= r < batch.len() && keep[r] implies batch[r]
            != before.sequences@[i].id by {
            assert(batch.contains(batch[r]));
        }
        assert(after[i] == after[i]);
    }
}

proof fn lemma_run_has_places(table: PagedKvSequence, token: int, source: int, count: int, k: int)
    requires
        run_error(table, token, source, count) is None,
        0 <= k < count,
        token >= 0,
        token + count <= usize::MAX,
    ensures
        token + k < table.token_len,
        table.slot(token + k).0 <= u32::MAX,
    decreases count,
{
    if k < count - 1 {
        lemma_run_has_places(table, token, source, count - 1, k);
    }
}

/// An append that is planned goes for every kept row to a sequence that is there, whose pages cover
/// every round.
pub proof fn law_planned_appends_have_places(
    engine: InferenceEngine,
    batch: Seq<u64>,
    kv_lens: Seq<usize>,
    width: int,
    rounds: int,
    keep: Seq<bool>,
    rows: int,
    row: int,
    round: int,
)
    requires
        0 <= row < rows,
        keep[row],
        0 <= round < rounds,
        kv_lens[row] + rounds <= usize::MAX,
        engine.append_error(batch, kv_lens, width, rounds, keep, rows) is None,
    ensures
        engine.has(batch[row]),
        kv_lens[row] + round < engine.sequence(batch[row]).paged_kv.token_len,
        engine.sequence(batch[row]).paged_kv.slot(kv_lens[row] + round).0 <= u32::MAX,
    decreases rows,
{
    if row < rows - 1 {
        law_planned_appends_have_places(
            engine,
            batch,
            kv_lens,
            width,
            rounds,
            keep,
            rows - 1,
            row,
            round,
        );
    } else {
        lemma_run_has_places(
            engine.sequence(batch[row]).paged_kv,
            kv_lens[row] as int,
            width,
            rounds,
            round,
        );
    }
}

/// An import that is planned is of rows that are no longer than the batch is wide, of sequences that
/// are there, and every token that it copies has a place in their pages.
pub proof fn law_planned_imports_have_places(
    engine: InferenceEngine,
    batch: Seq<u64>,
    kv_lens: Seq<usize>,
    width: usize,
    rows: int,
    row: int,
    token: int,
)
    requires
        0 <= row < rows,
        engine.import_error(batch, kv_lens, width, rows) is None,
    ensures
        engine.has(batch[row]),
        kv_lens[row] <= width,
        engine.sequence(batch[row]).paged_kv.gpu_resident_token_len <= token < kv_lens[row]
            ==> token < engine.sequence(batch[row]).paged_kv.token_len && engine.sequence(
            batch[row],
        ).paged_kv.slot(token).0 <= u32::MAX,
    decreases rows,
{
    if row < rows - 1 {
        law_planned_imports_have_places(engine, batch, kv_lens, width, rows - 1, row, token);
    } else {
        let table = engine.sequence(batch[row]).paged_kv;
        let (first, source, count) = engine.import_run(batch, kv_lens, width as int, row);
        if table.gpu_resident_token_len <= token < kv_lens[row] {
            lemma_run_has_places(table, first, source, count, token - first);
        }
    }
}

} // verus!
