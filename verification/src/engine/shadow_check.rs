//! Compares pages with direct packing, layer by layer.
use super::shadow::{self, PagedKvShadowGatherReport, ShadowError, ShadowPlan};
use super::state::{self, InferenceEngine};
use crate::paged_kv::batch as page_batch;
use crate::paged_kv::store;
use crate::paged_kv::{PagedKvLayout, PagedKvPlane};
use crate::tensor_math;
use crate::tensors::{self, LayerKvCaches};
use candle_core::Tensor;
use vstd::prelude::*;

verus! {

/// The number that four bytes make, low byte first.
pub open spec fn word(bytes: Seq<u8>, i: int) -> u32 {
    (bytes[4 * i] + 0x100 * bytes[4 * i + 1] + 0x1_0000 * bytes[4 * i + 2] + 0x100_0000 * bytes[4
        * i + 3]) as u32
}

/// The numbers that bytes make, four by four.
pub open spec fn words(bytes: Seq<u8>) -> Seq<u32> {
    Seq::new(bytes.len() / 4, |i: int| word(bytes, i))
}

/// Takes bytes four by four.
pub fn read_words(bytes: &[u8]) -> (result: Vec<u32>)
    ensures
        result@ == words(bytes@),
{
    let len: usize = bytes.len();
    let count: usize = len / 4;
    let mut out: Vec<u32> = Vec::new();
    let mut i: usize = 0;
    while i < count
        invariant
            i <= count,
            len == bytes@.len(),
            count == len / 4,
            out@ =~= words(bytes@).take(i as int),
        decreases count - i,
    {
        let value: u32 = bytes[4 * i] as u32 + 0x100 * (bytes[4 * i + 1] as u32) + 0x1_0000 * (
        bytes[4 * i + 2] as u32) + 0x100_0000 * (bytes[4 * i + 3] as u32);
        out.push(value);
        i = i + 1;
    }
    assert(words(bytes@).take(i as int) =~= words(bytes@));
    out
}

/// Reading a tensor as singles gave these bit patterns; without elements, there are none to read.
pub open spec fn singles_read(tensor: Tensor, values: Seq<u32>) -> bool {
    if tensors::has_elements(tensor) {
        exists|bytes: Seq<u8>| #[trigger]
            tensor_math::bytes_read(tensor_math::tensor_as_single(tensor), bytes) && values
                == words(bytes)
    } else {
        values.len() == 0
    }
}

/// Reads a tensor as the bit patterns of singles. A device can fail at it, and more elements than
/// can be allocated are not read; else the CPU cannot fail.
pub fn single_values(tensor: &Tensor) -> (result: Result<Vec<u32>, candle_core::Error>)
    ensures
        match result {
            Ok(values) => {
                &&& singles_read(*tensor, values@)
                &&& values@.len() == tensors::dims_product(tensors::tensor_dims(*tensor))
            },
            Err(_) => !tensor_math::on_cpu(*tensor),
        },
{
    if !tensors::holds_elements(tensor) {
        proof {
            tensors::lemma_dims_product_nonnegative(tensors::tensor_dims(*tensor));
        }
        return Ok(Vec::new());
    }
    tensors::demand_size(tensor)?;
    let singles = tensor_math::to_single(tensor)?;
    let bytes = tensor_math::read_bytes(&singles)?;
    Ok(read_words(bytes.as_slice()))
}

/// Why one row of a layer cannot be compared.
pub open spec fn row_error(
    caches: Seq<Option<(Tensor, Tensor)>>,
    layout: PagedKvLayout,
    kv_len: usize,
    row: usize,
    layer: usize,
) -> Option<ShadowError> {
    if shadow::layer_held(caches, layer as int) {
        let (key, value) = caches[layer as int]->Some_0;
        match shadow::shape_error(
            tensors::tensor_dims(key),
            layout,
            kv_len,
            row,
            layer,
            PagedKvPlane::Key,
        ) {
            Some(error) => Some(error),
            None => shadow::shape_error(
                tensors::tensor_dims(value),
                layout,
                kv_len,
                row,
                layer,
                PagedKvPlane::Value,
            ),
        }
    } else if kv_len > 0 {
        Some(ShadowError::MissingLayer { row, cache_len: kv_len, layer })
    } else {
        None
    }
}

/// Why a layer of the first `rows` rows cannot be compared.
pub open spec fn layer_error(
    caches: Seq<LayerKvCaches>,
    layout: PagedKvLayout,
    kv_lens: Seq<usize>,
    layer: usize,
    rows: int,
) -> Option<ShadowError>
    decreases rows,
{
    if rows <= 0 {
        None
    } else {
        match layer_error(caches, layout, kv_lens, layer, rows - 1) {
            Some(error) => Some(error),
            None => row_error(
                caches[rows - 1]@,
                layout,
                kv_lens[rows - 1],
                (rows - 1) as usize,
                layer,
            ),
        }
    }
}

proof fn lemma_layer_error_stays(
    caches: Seq<LayerKvCaches>,
    layout: PagedKvLayout,
    kv_lens: Seq<usize>,
    layer: usize,
    few: int,
    all: int,
)
    requires
        few <= all,
        layer_error(caches, layout, kv_lens, layer, few) is Some,
    ensures
        layer_error(caches, layout, kv_lens, layer, all) == layer_error(
            caches,
            layout,
            kv_lens,
            layer,
            few,
        ),
    decreases all - few,
{
    if few < all {
        lemma_layer_error_stays(caches, layout, kv_lens, layer, few, all - 1);
    }
}

/// A tensor in the shape of one plane has its values.
proof fn lemma_plane_values(dims: Seq<usize>, layout: PagedKvLayout, kv_len: int)
    requires
        dims.len() == 4,
        dims[0] == 1,
        dims[1] == layout.num_kv_heads,
        dims[2] == kv_len,
        dims[3] == layout.head_dim,
    ensures
        tensors::dims_product(dims) == shadow::plane_values(layout, kv_len),
{
    reveal_with_fuel(tensors::dims_product, 5);
    let three = dims.drop_last();
    let two = three.drop_last();
    let one = two.drop_last();
    assert(one.last() == dims[0] && two.last() == dims[1] && three.last() == dims[2]);
    assert(tensors::dims_product(one) == 1);
    assert(tensors::dims_product(dims) == layout.num_kv_heads * kv_len * layout.head_dim);
    assert(layout.num_kv_heads * kv_len == kv_len * layout.num_kv_heads) by (nonlinear_arith);
}

/// The values are a reading of one plane of a row as singles, or none where the row has no layer.
pub open spec fn row_was_read(
    caches: Seq<Option<(Tensor, Tensor)>>,
    layer: int,
    plane: PagedKvPlane,
    values: Seq<u32>,
) -> bool {
    if shadow::layer_held(caches, layer) {
        singles_read(shadow::plane_of(caches[layer]->Some_0, plane), values)
    } else {
        values.len() == 0
    }
}

/// The keys or values of a layer are not where the CPU reads them.
pub open spec fn off_cpu(caches: Seq<Option<(Tensor, Tensor)>>, layer: int) -> bool {
    shadow::layer_held(caches, layer) && {
        let (key, value) = caches[layer]->Some_0;
        !tensor_math::on_cpu(key) || !tensor_math::on_cpu(value)
    }
}

/// Some row has a layer that is not where the CPU reads it.
pub open spec fn some_off_cpu(caches: Seq<LayerKvCaches>, layer: int) -> bool {
    exists|r: int| 0 <= r < caches.len() && #[trigger] off_cpu(caches[r]@, layer)
}

/// Reads one plane of a row, which is empty where the row is.
fn read_row(
    caches: &LayerKvCaches,
    layout: PagedKvLayout,
    kv_len: usize,
    row: usize,
    layer: usize,
    plane: PagedKvPlane,
) -> (result: Result<Vec<u32>, ShadowError>)
    ensures
        match result {
            Ok(values) => {
                &&& values@.len() == shadow::plane_values(layout, kv_len as int)
                &&& row_was_read(caches@, layer as int, plane, values@)
                &&& if shadow::layer_held(caches@, layer as int) {
                    shadow::shape_error(
                        tensors::tensor_dims(
                            shadow::plane_of(caches@[layer as int]->Some_0, plane),
                        ),
                        layout,
                        kv_len,
                        row,
                        layer,
                        plane,
                    ) is None
                } else {
                    kv_len == 0
                }
            },
            Err(ShadowError::Failed(_)) => off_cpu(caches@, layer as int),
            Err(error) => if shadow::layer_held(caches@, layer as int) {
                shadow::shape_error(
                    tensors::tensor_dims(shadow::plane_of(caches@[layer as int]->Some_0, plane)),
                    layout,
                    kv_len,
                    row,
                    layer,
                    plane,
                ) == Some(error)
            } else {
                kv_len > 0 && error == (ShadowError::MissingLayer {
                    row,
                    cache_len: kv_len,
                    layer,
                })
            },
        },
{
    match shadow::row_to_compare(caches, layout, kv_len, row, layer, plane)? {
        None => {
            assert(shadow::plane_values(layout, kv_len as int) == 0) by (nonlinear_arith)
                requires
                    kv_len == 0,
                    shadow::plane_values(layout, kv_len as int) == kv_len * layout.num_kv_heads
                        * layout.head_dim,
            ;
            Ok(Vec::new())
        },
        Some(tensor) => {
            proof {
                lemma_plane_values(tensors::tensor_dims(tensor), layout, kv_len as int);
            }
            match single_values(&tensor) {
                Ok(values) => Ok(values),
                Err(error) => Err(ShadowError::Failed(error)),
            }
        },
    }
}

/// Rows of values, each as long as its row.
pub open spec fn rows_complete(
    values: Seq<Vec<u32>>,
    layout: PagedKvLayout,
    kv_lens: Seq<usize>,
) -> bool {
    &&& values.len() == kv_lens.len()
    &&& forall|r: int|
        0 <= r < values.len() ==> (#[trigger] values[r])@.len() == shadow::plane_values(
            layout,
            kv_lens[r] as int,
        )
}

/// Each row of values is a reading of that row of the layer.
pub open spec fn rows_read(
    caches: Seq<LayerKvCaches>,
    layer: int,
    plane: PagedKvPlane,
    values: Seq<Vec<u32>>,
) -> bool {
    forall|r: int|
        0 <= r < values.len() ==> row_was_read(
            caches[r]@,
            layer,
            plane,
            (#[trigger] values[r])@,
        )
}

/// These are complete readings of the keys and of the values of all rows of a layer.
pub open spec fn planes_read(
    caches: Seq<LayerKvCaches>,
    layout: PagedKvLayout,
    kv_lens: Seq<usize>,
    layer: int,
    keys: Seq<Vec<u32>>,
    values: Seq<Vec<u32>>,
) -> bool {
    &&& rows_complete(keys, layout, kv_lens)
    &&& rows_complete(values, layout, kv_lens)
    &&& rows_read(caches, layer, PagedKvPlane::Key, keys)
    &&& rows_read(caches, layer, PagedKvPlane::Value, values)
}

/// The keys and the values of all rows of a layer were read.
pub open spec fn layer_was_read(
    caches: Seq<LayerKvCaches>,
    layout: PagedKvLayout,
    kv_lens: Seq<usize>,
    layer: int,
) -> bool {
    exists|keys: Seq<Vec<u32>>, values: Seq<Vec<u32>>| #[trigger]
        planes_read(caches, layout, kv_lens, layer, keys, values)
}

/// Reads the keys and values of one layer.
fn read_layer(
    caches: &Vec<LayerKvCaches>,
    layout: PagedKvLayout,
    kv_lens: &Vec<usize>,
    layer: usize,
) -> (result: Result<(Vec<Vec<u32>>, Vec<Vec<u32>>), ShadowError>)
    requires
        caches@.len() == kv_lens@.len(),
    ensures
        match result {
            Ok((keys, values)) => {
                &&& layer_error(
                    caches@,
                    layout,
                    kv_lens@,
                    layer,
                    caches@.len() as int,
                ) is None
                &&& planes_read(caches@, layout, kv_lens@, layer as int, keys@, values@)
            },
            Err(ShadowError::Failed(_)) => some_off_cpu(caches@, layer as int),
            Err(error) => layer_error(
                caches@,
                layout,
                kv_lens@,
                layer,
                caches@.len() as int,
            ) == Some(error),
        },
{
    let mut keys: Vec<Vec<u32>> = Vec::new();
    let mut values: Vec<Vec<u32>> = Vec::new();
    let mut r: usize = 0;
    while r < caches.len()
        invariant
            r <= caches@.len(),
            caches@.len() == kv_lens@.len(),
            layer_error(caches@, layout, kv_lens@, layer, r as int) is None,
            rows_complete(keys@, layout, kv_lens@.take(r as int)),
            rows_complete(values@, layout, kv_lens@.take(r as int)),
            rows_read(caches@, layer as int, PagedKvPlane::Key, keys@),
            rows_read(caches@, layer as int, PagedKvPlane::Value, values@),
        decreases caches@.len() - r,
    {
        let ghost failing = row_error(caches@[r as int]@, layout, kv_lens@[r as int], r, layer);
        assert(layer_error(caches@, layout, kv_lens@, layer, r + 1) == failing);
        let key = match read_row(&caches[r], layout, kv_lens[r], r, layer, PagedKvPlane::Key) {
            Ok(key) => key,
            Err(error) => {
                proof {
                    if !(error is Failed) {
                        lemma_layer_error_stays(
                            caches@,
                            layout,
                            kv_lens@,
                            layer,
                            r + 1,
                            caches@.len() as int,
                        );
                    }
                }
                return Err(error);
            },
        };
        let value = match read_row(&caches[r], layout, kv_lens[r], r, layer, PagedKvPlane::Value) {
            Ok(value) => value,
            Err(error) => {
                proof {
                    if !(error is Failed) {
                        lemma_layer_error_stays(
                            caches@,
                            layout,
                            kv_lens@,
                            layer,
                            r + 1,
                            caches@.len() as int,
                        );
                    }
                }
                return Err(error);
            },
        };
        keys.push(key);
        values.push(value);
        assert(kv_lens@.take(r + 1) =~= kv_lens@.take(r as int).push(kv_lens@[r as int]));
        r = r + 1;
    }
    assert(kv_lens@.take(r as int) =~= kv_lens@);
    Ok((keys, values))
}

impl InferenceEngine {
    /// A comparison of this batch that finds no difference.
    pub open spec fn shadow_matched(
        &self,
        batch: Seq<u64>,
        caches: Seq<LayerKvCaches>,
        report: PagedKvShadowGatherReport,
    ) -> bool {
        let layout = self.paged_kv_allocator.layout;
        &&& batch.len() == caches.len()
        &&& layout.num_layers > 0 && layout.num_kv_heads > 0 && layout.head_dim > 0
        &&& forall|r: int| 0 <= r < batch.len() ==> self.has(#[trigger] batch[r])
        &&& shadow::cache_lens(caches, caches.len() as int) matches Ok(lens) && {
            &&& report.sequences == batch.len()
            &&& report.layers == if shadow::longest(lens) == 0 {
                0
            } else {
                self.shadow_layers()
            }
            &&& report.values_compared == 2 * report.layers * (batch.len() * layout.row_stride(
                shadow::longest(lens),
            ))
            &&& report.layers > 0 ==> forall|r: int|
                0 <= r < batch.len() ==> self.sequence(#[trigger] batch[r]).paged_kv.token_len
                    == lens[r]
            &&& forall|layer: usize|
                layer < report.layers ==> #[trigger] layer_error(
                    caches,
                    layout,
                    lens,
                    layer,
                    caches.len() as int,
                ) is None
            &&& forall|layer: int|
                0 <= layer < report.layers ==> #[trigger] layer_was_read(caches, layout, lens, layer)
        }
    }

    /// The first layer that cannot be compared fails with this error.
    pub open spec fn shadow_layer_failed(
        &self,
        caches: Seq<LayerKvCaches>,
        error: ShadowError,
    ) -> bool {
        let layout = self.paged_kv_allocator.layout;
        shadow::cache_lens(caches, caches.len() as int) matches Ok(lens) && exists|failing: usize|
            {
                &&& failing < self.shadow_layers()
                &&& #[trigger] layer_error(caches, layout, lens, failing, caches.len() as int)
                    == Some(error)
                &&& forall|layer: usize|
                    layer < failing ==> #[trigger] layer_error(
                        caches,
                        layout,
                        lens,
                        layer,
                        caches.len() as int,
                    ) is None
            }
    }

    /// A layer to be compared is not where the CPU reads it.
    pub open spec fn shadow_off_cpu(&self, caches: Seq<LayerKvCaches>) -> bool {
        exists|layer: int|
            0 <= layer < self.shadow_layers() && #[trigger] some_off_cpu(caches, layer)
    }

    /// Complete rows can go through pages and be packed.
    proof fn lemma_rows_fit(&self, batch: Seq<u64>, plan: ShadowPlan, layer: usize, values: Seq<
        Vec<u32>,
    >)
        requires
            self.wf(),
            rows_complete(values, self.paged_kv_allocator.layout, plan.kv_lens@),
            plan.kv_lens@.len() == batch.len(),
            layer < self.paged_kv_allocator.layout.num_layers,
            self.paged_kv_allocator.layout.num_kv_heads > 0,
            plan.max_len * self.paged_kv_allocator.layout.width() <= usize::MAX,
            forall|r: int|
                0 <= r < batch.len() ==> self.has(#[trigger] batch[r]) && self.sequence(
                    batch[r],
                ).paged_kv.token_len == plan.kv_lens@[r] && plan.kv_lens@[r] <= plan.max_len,
        ensures
            page_batch::via_pages_error(
                self.paged_kv_allocator.layout,
                self.paged_kv_allocator.block_size,
                self.batch_tables(batch),
                layer,
                values,
                plan.max_len,
            ) is None,
            page_batch::build_error(
                self.paged_kv_allocator.layout,
                plan.kv_lens@,
                plan.max_len,
                values,
            ) is None,
    {
        let layout = self.paged_kv_allocator.layout;
        let size = self.paged_kv_allocator.block_size;
        let tables = self.batch_tables(batch);
        let n = batch.len() as int;
        let written = Seq::new(
            tables.len(),
            |r: int|
                store::layer_values_error(
                    layout,
                    size,
                    *tables[r],
                    layer,
                    values[r]@.len() as usize,
                ),
        );
        let gathered = Seq::new(
            tables.len(),
            |r: int| page_batch::regather_error(layout, *tables[r], plan.max_len),
        );
        let packed = Seq::new(
            plan.kv_lens@.len(),
            |r: int|
                page_batch::row_error(
                    layout,
                    plan.kv_lens@[r],
                    plan.max_len,
                    values[r]@.len() as usize,
                ),
        );
        assert forall|r: int| 0 <= r < n implies written[r] is None && gathered[r] is None
            && packed[r] is None by {
            assert(self.has(batch[r]));
            let k = state::index_of(self.sequences@, batch[r]);
            assert(state::page_tables(self.sequences@)[k].block_size == size);
            let len = plan.kv_lens@[r] as int;
            assert(values[r]@.len() == shadow::plane_values(layout, len));
            assert(shadow::plane_values(layout, len) == len * layout.width()) by (nonlinear_arith)
                requires
                    shadow::plane_values(layout, len) == len * layout.num_kv_heads
                        * layout.head_dim,
                    layout.width() == layout.num_kv_heads * layout.head_dim,
            ;
            assert(len * layout.width() <= plan.max_len * layout.width()) by (nonlinear_arith)
                requires
                    len <= plan.max_len,
                    layout.width() == layout.num_kv_heads * layout.head_dim,
            ;
        }
        store::lemma_first_error(written, n);
        store::lemma_first_error(gathered, n);
        store::lemma_first_error(packed, n);
    }

    /// Compares a batch: what goes through pages has to be what is packed directly.
    pub fn validate_paged_kv_shadow_gather(
        &self,
        batch: &Vec<u64>,
        caches: &Vec<LayerKvCaches>,
    ) -> (result: Result<PagedKvShadowGatherReport, ShadowError>)
        requires
            self.wf(),
            batch@.no_duplicates(),
            shadow::cache_lens(caches@, caches@.len() as int) matches Ok(lens)
                ==> self.shadow_fits(batch@, shadow::longest(lens)),
        ensures
            match result {
                Ok(report) => self.shadow_matched(batch@, caches@, report),
                Err(ShadowError::Failed(_)) => self.shadow_off_cpu(caches@),
                Err(error) => self.shadow_error(batch@, caches@, error)
                    || self.shadow_layer_failed(caches@, error),
            },
    {
        let plan = self.plan_shadow(batch, caches)?;
        let layout = self.paged_kv_allocator.layout();
        let ghost stride = batch@.len() * layout.row_stride(plan.max_len as int);
        proof {
            shadow::lemma_longest(plan.kv_lens@);
            assert(0 <= stride) by (nonlinear_arith)
                requires
                    stride == batch@.len() * (layout.num_kv_heads * plan.max_len
                        * layout.head_dim),
            ;
        }
        let mut compared: usize = 0;
        let mut layer: usize = 0;
        assert(2 * layer * stride == 0) by (nonlinear_arith)
            requires
                layer == 0,
        ;
        while layer < plan.layers
            invariant
                layer <= plan.layers,
                self.wf(),
                batch@.no_duplicates(),
                batch@.len() == caches@.len(),
                layout == self.paged_kv_allocator.layout,
                layout.num_kv_heads > 0,
                stride == batch@.len() * layout.row_stride(plan.max_len as int),
                0 <= stride,
                plan.layers > 0 ==> plan.layers == self.shadow_layers(),
                self.shadow_fits(batch@, plan.max_len as int),
                shadow::cache_lens(caches@, caches@.len() as int) == Ok::<
                    Seq<usize>,
                    super::extract::KvCacheLenError,
                >(plan.kv_lens@),
                plan.kv_lens@.len() == batch@.len(),
                forall|r: int|
                    0 <= r < plan.kv_lens@.len() ==> #[trigger] plan.kv_lens@[r] <= plan.max_len,
                forall|r: int| 0 <= r < batch@.len() ==> self.has(#[trigger] batch@[r]),
                plan.layers > 0 ==> forall|r: int|
                    0 <= r < batch@.len() ==> self.sequence(
                        #[trigger] batch@[r],
                    ).paged_kv.token_len == plan.kv_lens@[r],
                forall|done: usize|
                    done < layer ==> #[trigger] layer_error(
                        caches@,
                        layout,
                        plan.kv_lens@,
                        done,
                        caches@.len() as int,
                    ) is None,
                forall|done: int|
                    0 <= done < layer ==> #[trigger] layer_was_read(
                        caches@,
                        layout,
                        plan.kv_lens@,
                        done,
                    ),
                compared == 2 * layer * stride,
            decreases plan.layers - layer,
        {
            let (keys, values) = read_layer(caches, layout, &plan.kv_lens, layer)?;
            assert(planes_read(caches@, layout, plan.kv_lens@, layer as int, keys@, values@));
            proof {
                self.lemma_rows_fit(batch@, plan, layer, keys@);
                self.lemma_rows_fit(batch@, plan, layer, values@);
                assert(2 * layer * stride + 2 * stride == 2 * (layer + 1) * stride && 2 * (layer
                    + 1) * stride <= 2 * plan.layers * stride) by (nonlinear_arith)
                    requires
                        layer < plan.layers,
                        0 <= stride,
                ;
            }
            let keys_compared: usize = self.shadow_plane(
                batch,
                &plan,
                layer,
                PagedKvPlane::Key,
                &keys,
            )?;
            let values_compared: usize = self.shadow_plane(
                batch,
                &plan,
                layer,
                PagedKvPlane::Value,
                &values,
            )?;
            compared = compared + keys_compared + values_compared;
            layer = layer + 1;
        }
        Ok(
            PagedKvShadowGatherReport {
                layers: plan.layers,
                sequences: batch.len(),
                values_compared: compared,
            },
        )
    }

    /// Compares a batch where that is switched on.
    pub fn maybe_validate_paged_kv_shadow_gather(
        &self,
        batch: &Vec<u64>,
        caches: &Vec<LayerKvCaches>,
    ) -> (result: Option<Result<PagedKvShadowGatherReport, ShadowError>>)
        requires
            self.wf(),
            batch@.no_duplicates(),
            self.settings.paged_kv_shadow_validate ==> (shadow::cache_lens(
                caches@,
                caches@.len() as int,
            ) matches Ok(lens) ==> self.shadow_fits(batch@, shadow::longest(lens))),
        ensures
            match result {
                None => !self.settings.paged_kv_shadow_validate,
                Some(found) => self.settings.paged_kv_shadow_validate && match found {
                    Ok(report) => self.shadow_matched(batch@, caches@, report),
                    Err(ShadowError::Failed(_)) => self.shadow_off_cpu(caches@),
                    Err(error) => self.shadow_error(batch@, caches@, error)
                        || self.shadow_layer_failed(caches@, error),
                },
            },
    {
        if self.settings.paged_kv_shadow_validate {
            Some(self.validate_paged_kv_shadow_gather(batch, caches))
        } else {
            None
        }
    }
}

/// A number that was read from four bytes has them as its digits, the first as the lowest, and there
/// are as many numbers as there are four bytes.
pub proof fn law_words_hold_their_bytes(bytes: Seq<u8>, i: int)
    requires
        0 <= i < bytes.len() / 4,
    ensures
        words(bytes).len() == bytes.len() / 4,
        words(bytes)[i] % 0x100 == bytes[4 * i],
        words(bytes)[i] / 0x100 % 0x100 == bytes[4 * i + 1],
        words(bytes)[i] / 0x1_0000 % 0x100 == bytes[4 * i + 2],
        words(bytes)[i] / 0x100_0000 == bytes[4 * i + 3],
{
}

} // verus!
