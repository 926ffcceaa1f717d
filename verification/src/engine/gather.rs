//! Takes the keys and values of a batch out of device pages.
use super::caches;
use super::extract::BatchedKvExtract;
use super::rows;
use super::sequence;
use super::state::{self, InferenceEngine};
use crate::paged_kv::plan;
use crate::paged_kv::{GpuGather, PagedKvGpuError, PagedKvSequence};
use crate::stats::EngineStats;
use crate::tensors::{self, LayerKvCaches};
use vstd::prelude::*;

verus! {

/// Rows to take out of pages.
#[derive(Debug)]
pub struct ExtractPlan {
    /// The sequence of each row; `None` for a row that is left out.
    pub rows: Vec<Option<u64>>,
    /// Tokens of each row.
    pub per_row_totals: Vec<Option<usize>>,
    pub max_total_len: usize,
}

/// Tokens of each kept row after `rounds` rounds.
pub open spec fn kept_totals(kv_lens: Seq<usize>, rounds: int, keep: Seq<bool>) -> Seq<
    Option<usize>,
> {
    Seq::new(
        kv_lens.len(),
        |r: int|
            if keep[r] {
                Some((kv_lens[r] + rounds) as usize)
            } else {
                None
            },
    )
}

/// The kept rows of a batch.
pub open spec fn kept_rows(batch: Seq<u64>, keep: Seq<bool>) -> Seq<Option<u64>> {
    Seq::new(
        batch.len(),
        |r: int|
            if keep[r] {
                Some(batch[r])
            } else {
                None
            },
    )
}

impl ExtractPlan {
    /// Rows and tokens belong together, and the width is that of the longest row.
    pub open spec fn wf(&self) -> bool {
        &&& self.rows@.len() == self.per_row_totals@.len()
        &&& self.max_total_len == rows::largest(self.per_row_totals@)
    }
}

impl InferenceEngine {
    /// Batches are taken out of pages.
    pub open spec fn gathers(&self) -> bool {
        self.settings.paged_kv_gather_extract && self.pages_in_use()
    }

    /// Plans to take the kept rows out of pages after a decode step of `rounds_done` rounds,
    /// where all of them are there.
    pub fn plan_extract(
        &self,
        batch: &Vec<u64>,
        kv_lens: &Vec<usize>,
        rounds_done: usize,
        keep: &Vec<bool>,
    ) -> (result: Option<ExtractPlan>)
        requires
            self.wf(),
        ensures
            result is Some <==> self.gathers() && rounds_done > 0 && self.batch_resident(
                batch@,
                kv_lens@,
                rounds_done as int,
                keep@,
            ),
            result matches Some(plan) ==> {
                &&& plan.wf()
                &&& plan.rows@ == kept_rows(batch@, keep@)
                &&& plan.per_row_totals@ == kept_totals(kv_lens@, rounds_done as int, keep@)
            },
    {
        if !self.settings.paged_kv_gather_extract || !self.settings.paged_kv_native_append
            || self.paged_kv_gpu_store.is_none() || rounds_done == 0 {
            return None;
        }
        if !self.paged_kv_batch_total_is_resident(batch, kv_lens, rounds_done, keep) {
            return None;
        }
        let mut rows: Vec<Option<u64>> = Vec::new();
        let mut per_row_totals: Vec<Option<usize>> = Vec::new();
        let mut r: usize = 0;
        while r < batch.len()
            invariant
                r <= batch@.len(),
                self.batch_resident(batch@, kv_lens@, rounds_done as int, keep@),
                rows@ =~= kept_rows(batch@, keep@).take(r as int),
                per_row_totals@ =~= kept_totals(kv_lens@, rounds_done as int, keep@).take(r as int),
            decreases batch@.len() - r,
        {
            if keep[r] {
                assert(self.resident(batch@[r as int], kv_lens@[r as int] + rounds_done));
                rows.push(Some(batch[r]));
                per_row_totals.push(Some(kv_lens[r] + rounds_done));
            } else {
                rows.push(None);
                per_row_totals.push(None);
            }
            r = r + 1;
        }
        assert(rows@ =~= kept_rows(batch@, keep@));
        assert(per_row_totals@ =~= kept_totals(kv_lens@, rounds_done as int, keep@));
        let max_total_len: usize = rows::find_largest(&per_row_totals);
        Some(ExtractPlan { rows, per_row_totals, max_total_len })
    }

    /// Everything that page tables cover of this batch is on the device.
    pub open spec fn whole_batch_resident(&self, batch: Seq<u64>) -> bool {
        forall|r: int|
            0 <= r < batch.len() ==> self.resident(
                #[trigger] batch[r],
                self.sequence(batch[r]).paged_kv.token_len as int,
            )
    }

    /// Plans to take all rows of a batch out of pages, where all of them are there.
    pub fn plan_regather(&self, batch: &Vec<u64>) -> (result: Option<ExtractPlan>)
        requires
            self.wf(),
        ensures
            result is Some <==> self.gathers() && self.whole_batch_resident(batch@),
            result matches Some(plan) ==> {
                &&& plan.wf()
                &&& plan.rows@ == Seq::new(batch@.len(), |r: int| Some(batch@[r]))
                &&& plan.per_row_totals@ == Seq::new(
                    batch@.len(),
                    |r: int| Some(self.sequence(batch@[r]).paged_kv.token_len),
                )
            },
    {
        if !self.settings.paged_kv_gather_extract || !self.settings.paged_kv_native_append
            || self.paged_kv_gpu_store.is_none() {
            return None;
        }
        let mut rows: Vec<Option<u64>> = Vec::new();
        let mut per_row_totals: Vec<Option<usize>> = Vec::new();
        let mut r: usize = 0;
        while r < batch.len()
            invariant
                r <= batch@.len(),
                self.wf(),
                rows@ =~= Seq::new(r as nat, |j: int| Some(batch@[j])),
                per_row_totals@ =~= Seq::new(
                    r as nat,
                    |j: int| Some(self.sequence(batch@[j]).paged_kv.token_len),
                ),
                forall|j: int|
                    0 <= j < r ==> self.resident(
                        #[trigger] batch@[j],
                        self.sequence(batch@[j]).paged_kv.token_len as int,
                    ),
            decreases batch@.len() - r,
        {
            match self.find(batch[r]) {
                None => {
                    assert(!self.resident(batch@[r as int], 0));
                    return None;
                },
                Some(i) => {
                    assert(self.sequences@[i as int].wf());
                    let table = &self.sequences[i].paged_kv;
                    let total: usize = table.token_len();
                    if table.gpu_resident_token_len() < total {
                        assert(!self.resident(batch@[r as int], total as int));
                        return None;
                    }
                    rows.push(Some(batch[r]));
                    per_row_totals.push(Some(total));
                },
            }
            r = r + 1;
        }
        let max_total_len: usize = rows::find_largest(&per_row_totals);
        Some(ExtractPlan { rows, per_row_totals, max_total_len })
    }

    /// Every sequence of the plan is there.
    pub open spec fn can_gather(&self, plan: ExtractPlan) -> bool {
        forall|r: int|
            0 <= r < plan.rows@.len() ==> match #[trigger] plan.rows@[r] {
                Some(id) => self.has(id),
                None => true,
            }
    }

    /// Page tables of the rows of a plan.
    pub open spec fn plan_tables(&self, plan: ExtractPlan) -> Seq<Option<&PagedKvSequence>> {
        Seq::new(
            plan.rows@.len(),
            |r: int|
                match plan.rows@[r] {
                    Some(id) => Some(&self.sequence(id).paged_kv),
                    None => None,
                },
        )
    }

    /// Whether a tensor for one layer of the plan can be allocated.
    pub fn gather_fits(&self, plan: &ExtractPlan) -> (result: bool)
        ensures
            result == match self.paged_kv_gpu_store {
                Some(store) => tensors::shape_allocates(
                    store.gather_dims(plan.rows@.len() as usize, plan.max_total_len),
                ),
                None => false,
            },
    {
        match &self.paged_kv_gpu_store {
            Some(store) => {
                let mut dims: Vec<usize> = Vec::new();
                dims.push(plan.rows.len());
                dims.push(store.layout.num_kv_heads);
                dims.push(plan.max_total_len);
                dims.push(store.layout.head_dim);
                assert(dims@ =~= store.gather_dims(
                    plan.rows@.len() as usize,
                    plan.max_total_len,
                ));
                tensors::shape_fits(dims.as_slice())
            },
            None => false,
        }
    }

    /// Prepares the gather of one layer of a plan.
    pub fn gather_layer(&self, plan: &ExtractPlan, layer: usize) -> (result: Result<
        GpuGather,
        PagedKvGpuError,
    >)
        requires
            self.wf(),
            self.can_gather(*plan),
            self.paged_kv_gpu_store matches Some(store) ==> tensors::shape_allocates(
                store.gather_dims(plan.rows@.len() as usize, plan.max_total_len),
            ),
        ensures
            match self.paged_kv_gpu_store {
                None => result matches Err(PagedKvGpuError::NotAllocated),
                Some(store) => match result {
                    Ok(gather) => {
                        &&& tensors::dtype_is_bf16(store.dtype)
                        &&& layer < store.layout.num_layers
                        &&& plan::gather_plan_error(
                            self.plan_tables(*plan),
                            store.block_size,
                            plan.max_total_len,
                        ) is None
                        &&& gather.plan.lists(
                            plan::gather_entries(
                                self.plan_tables(*plan),
                                plan.max_total_len as int,
                                plan.rows@.len() as int,
                            ),
                        )
                        &&& gather.output == tensors::tensor_of_zeros(
                            store.gather_dims(plan.rows@.len() as usize, plan.max_total_len),
                            store.dtype,
                            store.device,
                        )
                        &&& gather.plan.page_ids@.len() > 0 ==> gather.pages is Some
                            && gather.pages == store.pages
                        &&& gather.plan.page_ids@.len() == 0 ==> gather.pages is None
                    },
                    Err(PagedKvGpuError::UnsupportedDtype) => !tensors::dtype_is_bf16(store.dtype),
                    Err(PagedKvGpuError::LayerOutOfRange { layer: given, num_layers }) => {
                        &&& tensors::dtype_is_bf16(store.dtype)
                        &&& given == layer
                        &&& num_layers == store.layout.num_layers
                        &&& layer >= num_layers
                    },
                    Err(PagedKvGpuError::Plan(error)) => {
                        &&& tensors::dtype_is_bf16(store.dtype)
                        &&& layer < store.layout.num_layers
                        &&& plan::gather_plan_error(
                            self.plan_tables(*plan),
                            store.block_size,
                            plan.max_total_len,
                        ) == Some(error)
                    },
                    Err(PagedKvGpuError::NotAllocated) => {
                        &&& tensors::dtype_is_bf16(store.dtype)
                        &&& layer < store.layout.num_layers
                        &&& plan::gather_plan_error(
                            self.plan_tables(*plan),
                            store.block_size,
                            plan.max_total_len,
                        ) is None
                        &&& plan::gather_entries(
                            self.plan_tables(*plan),
                            plan.max_total_len as int,
                            plan.rows@.len() as int,
                        ).len() > 0
                        &&& store.pages is None
                    },
                    Err(PagedKvGpuError::Failed(_)) => {
                        &&& tensors::dtype_is_bf16(store.dtype)
                        &&& layer < store.layout.num_layers
                        &&& !store.on_cpu()
                    },
                    Err(_) => false,
                },
            },
    {
        let mut tables: Vec<Option<&PagedKvSequence>> = Vec::new();
        let mut r: usize = 0;
        while r < plan.rows.len()
            invariant
                r <= plan.rows@.len(),
                self.wf(),
                self.can_gather(*plan),
                tables@ =~= self.plan_tables(*plan).take(r as int),
            decreases plan.rows@.len() - r,
        {
            match plan.rows[r] {
                Some(id) => {
                    assert(plan.rows@[r as int] == Some(id));
                    match self.find(id) {
                        Some(i) => {
                            tables.push(Some(&self.sequences[i].paged_kv));
                        },
                        None => {
                            assert(false);
                        },
                    }
                },
                None => {
                    tables.push(None);
                },
            }
            r = r + 1;
        }
        assert(self.plan_tables(*plan).take(r as int) =~= self.plan_tables(*plan));
        assert forall|j: int| 0 <= j < tables@.len() implies match #[trigger] tables@[j] {
            Some(table) => table.block_size > 0,
            None => true,
        } by {
            if let Some(id) = plan.rows@[j] {
                let k = state::index_of(self.sequences@, id);
                assert(self.sequences@[k].wf());
            }
        }
        match &self.paged_kv_gpu_store {
            Some(store) => store.gather_layer_right_aligned(
                tables.as_slice(),
                layer,
                plan.max_total_len,
            ),
            None => Err(PagedKvGpuError::NotAllocated),
        }
    }

    /// Completes an extraction after a decode step: `per_layer` are the gathered layers, which
    /// took `kernel_us` microseconds. A plan without tokens gathers nothing.
    pub fn complete_extract(
        &mut self,
        plan: ExtractPlan,
        per_layer: LayerKvCaches,
        kernel_us: u64,
    ) -> (result: BatchedKvExtract)
        requires
            old(self).wf(),
            plan.wf(),
        ensures
            final(self).wf(),
            extracted(*old(self), plan, per_layer@, result),
            *final(self) == (InferenceEngine {
                stats: EngineStats {
                    total_paged_kv_gather_extracts:
                        old(self).stats.total_paged_kv_gather_extracts.plus(1),
                    ..gather_counted(old(self).stats, plan, per_layer@.len() as int, kernel_us)
                },
                ..*old(self)
            }),
    {
        self.stats.total_paged_kv_gather_extracts.fetch_add(1);
        self.finish_gather(plan, per_layer, kernel_us)
    }

    /// Completes a gather for a new batch, in the same way.
    pub fn complete_regather(
        &mut self,
        plan: ExtractPlan,
        per_layer: LayerKvCaches,
        kernel_us: u64,
    ) -> (result: BatchedKvExtract)
        requires
            old(self).wf(),
            plan.wf(),
        ensures
            final(self).wf(),
            extracted(*old(self), plan, per_layer@, result),
            *final(self) == (InferenceEngine {
                stats: EngineStats {
                    total_paged_kv_gather_regathers: if plan.max_total_len > 0 {
                        old(self).stats.total_paged_kv_gather_regathers.plus(1)
                    } else {
                        old(self).stats.total_paged_kv_gather_regathers
                    },
                    ..gather_counted(old(self).stats, plan, per_layer@.len() as int, kernel_us)
                },
                ..*old(self)
            }),
    {
        if plan.max_total_len > 0 {
            self.stats.total_paged_kv_gather_regathers.fetch_add(1);
        }
        self.finish_gather(plan, per_layer, kernel_us)
    }

    fn finish_gather(
        &mut self,
        plan: ExtractPlan,
        per_layer: LayerKvCaches,
        kernel_us: u64,
    ) -> (result: BatchedKvExtract)
        requires
            old(self).wf(),
            plan.wf(),
        ensures
            final(self).wf(),
            extracted(*old(self), plan, per_layer@, result),
            *final(self) == (InferenceEngine {
                stats: gather_counted(old(self).stats, plan, per_layer@.len() as int, kernel_us),
                ..*old(self)
            }),
    {
        proof {
            rows::lemma_largest(plan.per_row_totals@);
        }
        let max_total_len: usize = plan.max_total_len;
        if max_total_len == 0 {
            return BatchedKvExtract {
                per_layer: sequence::empty_caches(self.settings.num_layers),
                max_total_len,
                per_row_totals: plan.per_row_totals,
            };
        }
        self.stats.total_paged_kv_gather_extract_layers.fetch_add(per_layer.len() as u64);
        self.stats.total_paged_kv_gather_kernel_time_us.fetch_add(kernel_us);
        BatchedKvExtract { per_layer, max_total_len, per_row_totals: plan.per_row_totals }
    }

    /// Gives each sequence of `ids` the caches of its row of an extract.
    pub fn adopt_rows(&mut self, ids: &Vec<u64>, extract: &BatchedKvExtract) -> (result: Result<
        (),
        candle_core::Error,
    >)
        requires
            old(self).wf(),
            extract.wf(),
            ids@.no_duplicates(),
            extract.per_row_totals@.len() == ids@.len(),
        ensures
            final(self).wf(),
            match result {
                Ok(_) => adopted(*old(self), *final(self), ids@, *extract, ids@.len() as int),
                Err(_) => *final(self) == *old(self) && extract.unsure(
                    old(self).settings.num_layers as int,
                ),
            },
    {
        let ghost before = *self;
        let rows = extract.materialize_per_row(self.settings.num_layers)?;
        let mut r: usize = 0;
        while r < ids.len()
            invariant
                r <= ids@.len(),
                rows@.len() == ids@.len(),
                self.wf(),
                before.wf(),
                ids@.no_duplicates(),
                adopted(before, *self, ids@, *extract, r as int),
                forall|j: int|
                    0 <= j < rows@.len() ==> (#[trigger] rows@[j])@ == extract.row_caches(
                        j,
                        before.settings.num_layers as int,
                    ),
            decreases ids@.len() - r,
        {
            let ghost middle = *self;
            let caches = tensors::share_caches(rows[r].as_slice());
            self.set_caches(ids[r], caches);
            proof {
                lemma_adopt_one(before, middle, *self, ids@, *extract, r as int);
            }
            r = r + 1;
        }
        Ok(())
    }

    /// The sequences of the named rows of a batch; rows that the batch does not have count for
    /// nothing.
    pub fn rows_to_materialize(batch: &Vec<u64>, rows: &Vec<usize>) -> (result: Vec<u64>)
        ensures
            result@ == named_rows(batch@, rows@),
    {
        let mut ids: Vec<u64> = Vec::new();
        let mut i: usize = 0;
        while i < rows.len()
            invariant
                i <= rows@.len(),
                ids@ == named_rows(batch@, rows@.take(i as int)),
            decreases rows@.len() - i,
        {
            assert(rows@.take(i + 1).drop_last() =~= rows@.take(i as int));
            if rows[i] < batch.len() {
                ids.push(batch[rows[i]]);
            }
            i = i + 1;
        }
        assert(rows@.take(i as int) =~= rows@);
        ids
    }
}

/// The ids of the named rows that a batch has.
pub open spec fn named_rows(batch: Seq<u64>, rows: Seq<usize>) -> Seq<u64>
    decreases rows.len(),
{
    if rows.len() == 0 {
        Seq::empty()
    } else {
        let head = named_rows(batch, rows.drop_last());
        if rows.last() < batch.len() {
            head.push(batch[rows.last() as int])
        } else {
            head
        }
    }
}

/// `stats` after a gather of `layers` layers, if there was anything to gather.
pub open spec fn gather_counted(
    stats: EngineStats,
    plan: ExtractPlan,
    layers: int,
    kernel_us: u64,
) -> EngineStats {
    if plan.max_total_len == 0 {
        stats
    } else {
        EngineStats {
            total_paged_kv_gather_extract_layers: stats.total_paged_kv_gather_extract_layers.plus(
                layers,
            ),
            total_paged_kv_gather_kernel_time_us: stats.total_paged_kv_gather_kernel_time_us.plus(
                kernel_us as int,
            ),
            ..stats
        }
    }
}

/// `extract` holds what was gathered for `plan`.
pub open spec fn extracted(
    engine: InferenceEngine,
    plan: ExtractPlan,
    per_layer: Seq<Option<(candle_core::Tensor, candle_core::Tensor)>>,
    extract: BatchedKvExtract,
) -> bool {
    &&& extract.wf()
    &&& extract.max_total_len == plan.max_total_len
    &&& extract.per_row_totals@ == plan.per_row_totals@
    &&& extract.per_layer@ == if plan.max_total_len == 0 {
        sequence::no_caches(engine.settings.num_layers as int)
    } else {
        per_layer
    }
}

/// `after` is `before` with the caches of the first `count` rows given to their sequences.
pub open spec fn adopted(
    before: InferenceEngine,
    after: InferenceEngine,
    ids: Seq<u64>,
    extract: BatchedKvExtract,
    count: int,
) -> bool {
    &&& after.sequences@.len() == before.sequences@.len()
    &&& after == (InferenceEngine { sequences: after.sequences, ..before })
    &&& forall|i: int| #![trigger after.sequences@[i]]
        0 <= i < before.sequences@.len() ==> after.sequences@[i] == (sequence::Sequence {
            kv_caches: after.sequences@[i].kv_caches,
            ..before.sequences@[i]
        })
    &&& forall|i: int| #![trigger after.sequences@[i]]
        0 <= i < before.sequences@.len() && !ids.take(count).contains(before.sequences@[i].id)
            ==> after.sequences@[i] == before.sequences@[i]
    &&& forall|r: int| #![trigger ids[r]]
        0 <= r < count && before.has(ids[r]) ==> after.sequences@[state::index_of(
            before.sequences@,
            ids[r],
        )].kv_caches@ == extract.row_caches(r, before.settings.num_layers as int)
}

proof fn lemma_adopt_one(
    before: InferenceEngine,
    middle: InferenceEngine,
    after: InferenceEngine,
    ids: Seq<u64>,
    extract: BatchedKvExtract,
    r: int,
)
    requires
        before.wf(),
        middle.wf(),
        0 <= r < ids.len(),
        ids.no_duplicates(),
        adopted(before, middle, ids, extract, r),
        caches::given(
            middle,
            after,
            ids[r],
            extract.row_caches(r, before.settings.num_layers as int),
        ),
    ensures
        adopted(before, after, ids, extract, r + 1),
{
    let id = ids[r];
    state::lemma_same_ids_same_places(before.sequences@, middle.sequences@);
    assert(state::has_id(middle.sequences@, id) <==> state::has_id(before.sequences@, id));
    assert(ids.take(r + 1) =~= ids.take(r).push(id));
    assert forall|i: int| #![trigger after.sequences@[i]]
        0 <= i < before.sequences@.len() && !ids.take(r + 1).contains(before.sequences@[i].id)
            implies after.sequences@[i] == before.sequences@[i] by {
        assert(ids.take(r + 1)[r] == id);
        assert(middle.sequences@[i] == before.sequences@[i]) by {
            if ids.take(r).contains(before.sequences@[i].id) {
                let k = ids.take(r).index_of(before.sequences@[i].id);
                assert(ids.take(r + 1)[k] == before.sequences@[i].id);
            }
        }
        if middle.has(id) {
            let k = state::index_of(middle.sequences@, id);
            assert(middle.sequences@[k].id == id);
        }
    }
    assert forall|i: int| #![trigger after.sequences@[i]]
        0 <= i < before.sequences@.len() implies after.sequences@[i] == (sequence::Sequence {
        kv_caches: after.sequences@[i].kv_caches,
        ..before.sequences@[i]
    }) by {
        assert(middle.sequences@[i] == (sequence::Sequence {
            kv_caches: middle.sequences@[i].kv_caches,
            ..before.sequences@[i]
        }));
    }
    assert forall|q: int| #![trigger ids[q]] 0 <= q < r + 1 && before.has(ids[q]) implies (
    after.sequences@[state::index_of(before.sequences@, ids[q])].kv_caches@ == extract.row_caches(
        q,
        before.settings.num_layers as int,
    )) by {
        let k = state::index_of(before.sequences@, ids[q]);
        assert(before.sequences@[k].id == ids[q]);
        if q < r {
            assert(ids[q] != ids[r]);
            if middle.has(id) {
                let m = state::index_of(middle.sequences@, id);
                assert(middle.sequences@[m].id == id);
                assert(before.sequences@[m].id == id);
                assert(m != k);
            }
            assert(after.sequences@[k] == middle.sequences@[k]);
        } else {
            assert(state::index_of(middle.sequences@, id) == k);
        }
    }
}

/// A plan to take rows out of pages takes each kept row with its past and the rounds since, leaves
/// the others out, and is as wide as the longest of them.
pub proof fn law_kept_rows_are_taken_whole(
    plan: ExtractPlan,
    batch: Seq<u64>,
    kv_lens: Seq<usize>,
    rounds: int,
    keep: Seq<bool>,
    r: int,
)
    requires
        plan.wf(),
        plan.rows@ == kept_rows(batch, keep),
        plan.per_row_totals@ == kept_totals(kv_lens, rounds, keep),
        batch.len() == kv_lens.len(),
        0 <= r < batch.len(),
        0 <= kv_lens[r] + rounds <= usize::MAX,
    ensures
        keep[r] ==> plan.rows@[r] == Some(batch[r]) && plan.per_row_totals@[r] == Some(
            (kv_lens[r] + rounds) as usize,
        ) && kv_lens[r] + rounds <= plan.max_total_len,
        !keep[r] ==> plan.rows@[r] is None && plan.per_row_totals@[r] is None,
        plan.max_total_len > 0 ==> exists|k: int|
            0 <= k < batch.len() && keep[k] && #[trigger] plan.per_row_totals@[k] == Some(
                plan.max_total_len,
            ),
{
    rows::law_largest_is_one_of_them(plan.per_row_totals@);
    assert(plan.per_row_totals@[r] == plan.per_row_totals@[r]);
}

/// Row by row the caches of a batch go to the sequences of the batch, and to no other.
pub proof fn law_rows_are_adopted(
    before: InferenceEngine,
    after: InferenceEngine,
    ids: Seq<u64>,
    extract: BatchedKvExtract,
    r: int,
    other: u64,
)
    requires
        before.wf(),
        adopted(before, after, ids, extract, ids.len() as int),
        0 <= r < ids.len(),
        before.has(ids[r]),
        before.has(other),
    ensures
        after.has(ids[r]) && after.has(other),
        after.sequence(ids[r]).kv_caches@ == extract.row_caches(
            r,
            before.settings.num_layers as int,
        ),
        after.sequence(other).tokens == before.sequence(other).tokens,
        !ids.contains(other) ==> after.sequence(other) == before.sequence(other),
{
    let list = before.sequences@;
    let all = after.sequences@;
    assert forall|i: int| #![trigger all[i]] 0 <= i < list.len() implies all[i].id
        == list[i].id by {
        assert(all[i] == all[i]);
    }
    state::lemma_same_ids_same_places(list, all);
    assert(state::has_id(list, ids[r]) && state::has_id(list, other));
    assert(state::has_id(all, ids[r]) && state::has_id(all, other));
    let k = state::index_of(list, other);
    assert(list[k].id == other);
    assert(all[k] == all[k]);
    assert(ids.take(ids.len() as int) =~= ids);
}

} // verus!
