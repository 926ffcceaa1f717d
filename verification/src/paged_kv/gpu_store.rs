//! Pages in device memory.
//!
//! The store owns one tensor of pages and grows it as page ids grow. The
//! kernels that copy between pages and cache buffers run outside; the store
//! hands out what they need and checks that a request can be served.
use super::layout::{PagedKvLayout, PagedKvStorageError};
use super::plan::{self, PagedKvGatherPlan, PagedKvNativeAppendPlan};
use super::sequence::PagedKvSequence;
use crate::arith;
use crate::elements::{self, Elements};
use crate::tensor_math;
use crate::tensors;
use candle_core::{DType, Device, Tensor};
use vstd::prelude::*;

verus! {

/// Why the device page store refused a request.
#[derive(Debug)]
pub enum PagedKvGpuError {
    /// The page id does not fit the machine.
    PageIdTooLarge { page_id: u64 },
    /// Pages are not stored as BF16.
    UnsupportedDtype,
    LayerCountMismatch { expected: usize, actual: usize },
    LayerOutOfRange { layer: usize, num_layers: usize },
    /// There is no page tensor.
    NotAllocated,
    Plan(PagedKvStorageError),
    /// The device could not do it.
    Failed(candle_core::Error),
}

/// Page tensor of one model on one device.
pub struct PagedKvGpuPageStore {
    pub block_size: usize,
    pub layout: PagedKvLayout,
    pub dtype: DType,
    pub device: Device,
    pub pages: Option<Tensor>,
    pub capacity_pages: usize,
}

/// Cache buffers to copy into pages: those of the first `ready` layers are there.
#[derive(Debug)]
pub struct GpuLayerCopies {
    pub pages: Tensor,
    pub ready: usize,
}

/// A gather from pages into a batch of zeros.
#[derive(Debug)]
pub struct GpuGather {
    pub output: Tensor,
    pub plan: PagedKvGatherPlan,
    /// The page tensor, unless there is nothing to gather.
    pub pages: Option<Tensor>,
}

/// The layers before the first one without a buffer.
pub open spec fn leading_layers(caches: Seq<Option<(Tensor, Tensor)>>) -> int
    decreases caches.len(),
{
    if caches.len() == 0 {
        0
    } else if leading_layers(caches.drop_last()) == caches.len() - 1 && caches.last() is Some {
        caches.len() as int
    } else {
        leading_layers(caches.drop_last())
    }
}

/// The largest of `ids`, or 0.
pub open spec fn largest_id(ids: Seq<u32>) -> int
    decreases ids.len(),
{
    if ids.len() == 0 {
        0
    } else if ids.last() > largest_id(ids.drop_last()) {
        ids.last() as int
    } else {
        largest_id(ids.drop_last())
    }
}

impl PagedKvGpuPageStore {
    /// The tensor has the shape that the layout gives it, and there is one exactly where there is
    /// capacity. It is the store's own, in order, on the store's device.
    pub open spec fn wf(&self) -> bool {
        &&& self.block_size > 0
        &&& self.pages is None ==> self.capacity_pages == 0
        &&& self.pages matches Some(pages) ==> {
            &&& self.capacity_pages > 0
            &&& tensors::tensor_dims(pages) == self.page_dims(self.capacity_pages)
            &&& tensors::owns_storage(pages)
            &&& tensor_math::tensor_dtype(pages) == self.dtype
            &&& tensor_math::tensor_contiguous(pages)
            &&& self.on_cpu() ==> tensor_math::on_cpu(pages)
        }
    }

    /// Pages live in host memory. No device can fail at them then.
    pub open spec fn on_cpu(&self) -> bool {
        tensor_math::device_is_cpu(self.device) && tensor_math::dtype_computes(self.dtype)
    }

    /// Shape of a tensor of `capacity` pages.
    pub open spec fn page_dims(&self, capacity: usize) -> Seq<usize> {
        seq![
            capacity,
            self.layout.num_layers,
            2usize,
            self.block_size,
            self.layout.num_kv_heads,
            self.layout.head_dim,
        ]
    }

    /// Pages of this layout hold no value.
    pub open spec fn degenerate(&self) -> bool {
        self.layout.num_layers == 0 || self.layout.num_kv_heads == 0 || self.layout.head_dim == 0
    }

    /// Serving page `max_page_id` makes the page tensor grow.
    pub open spec fn must_grow(&self, max_page_id: u64) -> bool {
        &&& max_page_id > self.capacity_pages
        &&& max_page_id <= usize::MAX
        &&& !self.degenerate()
    }

    /// A page tensor that reaches page `max_page_id` can be allocated.
    pub open spec fn can_hold(&self, max_page_id: u64) -> bool {
        self.must_grow(max_page_id) ==> {
            &&& max_page_id <= usize::MAX / 2 + 1
            &&& forall|capacity: usize|
                arith::is_next_power_of_two(max_page_id as int, capacity as int)
                    ==> tensors::shape_allocates(#[trigger] self.page_dims(capacity))
        }
    }

    /// Everything but the pages and their number is as in `before`.
    pub open spec fn same_config(&self, before: Self) -> bool {
        &&& self.block_size == before.block_size
        &&& self.layout == before.layout
        &&& self.dtype == before.dtype
        &&& self.device == before.device
    }

    /// `self` is `before` grown to reach page `max_page_id`: zeros, with the old pages in front.
    pub open spec fn grown_from(&self, before: Self, max_page_id: u64) -> bool {
        if !before.must_grow(max_page_id) {
            *self == before
        } else {
            let blank = tensors::tensor_of_zeros(
                before.page_dims(self.capacity_pages),
                before.dtype,
                before.device,
            );
            &&& self.same_config(before)
            &&& arith::is_next_power_of_two(max_page_id as int, self.capacity_pages as int)
            &&& self.pages == match before.pages {
                Some(pages) => Some(tensors::tensor_overwritten(blank, pages, 0, 0)),
                None => Some(blank),
            }
        }
    }

    pub fn new(block_size: usize, layout: PagedKvLayout, dtype: DType, device: &Device) -> (result:
        Self)
        ensures
            result.wf(),
            result.block_size == if block_size == 0 {
                1
            } else {
                block_size
            },
            result.layout == layout,
            result.dtype == dtype,
            result.device == *device,
            result.pages is None,
            result.capacity_pages == 0,
    {
        PagedKvGpuPageStore {
            block_size: if block_size == 0 {
                1
            } else {
                block_size
            },
            layout,
            dtype,
            device: device.clone(),
            pages: None,
            capacity_pages: 0,
        }
    }

    pub fn capacity_pages(&self) -> (result: usize)
        ensures
            result == self.capacity_pages,
    {
        self.capacity_pages
    }

    pub fn block_size(&self) -> (result: usize)
        ensures
            result == self.block_size,
    {
        self.block_size
    }

    pub fn layout(&self) -> (result: PagedKvLayout)
        ensures
            result == self.layout,
    {
        self.layout
    }

    pub fn pages(&self) -> (result: Option<Tensor>)
        ensures
            result == self.pages,
    {
        match &self.pages {
            Some(pages) => Some(pages.clone()),
            None => None,
        }
    }

    pub fn capacity_bytes(&self) -> (result: u64)
        requires
            self.layout.block_bytes_fit(self.block_size as int),
            self.capacity_pages * self.layout.block_bytes(self.block_size as int) <= u64::MAX,
        ensures
            result == self.capacity_pages * self.layout.block_bytes(self.block_size as int),
    {
        self.capacity_pages as u64 * self.layout.bytes_per_block(self.block_size)
    }

    /// Gives the page tensor up and says how many pages it had.
    pub fn release_cached_storage(&mut self) -> (released_pages: usize)
        ensures
            released_pages == old(self).capacity_pages,
            final(self).pages is None,
            final(self).capacity_pages == 0,
            final(self).same_config(*old(self)),
            old(self).wf() ==> final(self).wf(),
    {
        let released_pages: usize = self.capacity_pages;
        self.pages = None;
        self.capacity_pages = 0;
        released_pages
    }

    fn page_shape(&self, capacity: usize) -> (result: Vec<usize>)
        ensures
            result@ == self.page_dims(capacity),
    {
        let mut dims: Vec<usize> = Vec::new();
        dims.push(capacity);
        dims.push(self.layout.num_layers);
        dims.push(2);
        dims.push(self.block_size);
        dims.push(self.layout.num_kv_heads);
        dims.push(self.layout.head_dim);
        assert(dims@ =~= self.page_dims(capacity));
        dims
    }

    /// Whether a page tensor that reaches page `max_page_id` can be allocated.
    pub fn fits(&self, max_page_id: u64) -> (result: bool)
        ensures
            result == self.can_hold(max_page_id),
    {
        if max_page_id <= self.capacity_pages as u64 || max_page_id > usize::MAX as u64 {
            return true;
        }
        if self.layout.num_layers == 0 || self.layout.num_kv_heads == 0 || self.layout.head_dim
            == 0 {
            return true;
        }
        let needed: usize = max_page_id as usize;
        if needed > usize::MAX / 2 + 1 {
            return false;
        }
        let capacity: usize = arith::next_power_of_two(needed);
        let dims = self.page_shape(capacity);
        let result = tensors::shape_fits(dims.as_slice());
        proof {
            assert forall|other: usize|
                arith::is_next_power_of_two(max_page_id as int, other as int) implies other
                == capacity && #[trigger] self.page_dims(other) == dims@ by {
                arith::lemma_next_power_of_two_unique(
                    max_page_id as int,
                    other as int,
                    capacity as int,
                );
            }
            assert(self.page_dims(capacity) == dims@);
        }
        result
    }

    /// Makes sure that page `max_page_id` exists. Capacity grows to powers of two; the pages
    /// that there were keep their contents.
    pub fn ensure_capacity(&mut self, max_page_id: u64) -> (result: Result<(), PagedKvGpuError>)
        requires
            old(self).wf(),
            old(self).can_hold(max_page_id),
        ensures
            final(self).wf(),
            match result {
                Ok(_) => max_page_id <= usize::MAX && final(self).grown_from(
                    *old(self),
                    max_page_id,
                ),
                Err(PagedKvGpuError::PageIdTooLarge { page_id }) => page_id == max_page_id
                    && max_page_id > usize::MAX && *final(self) == *old(self),
                Err(PagedKvGpuError::Failed(_)) => old(self).must_grow(max_page_id) && !old(
                    self,
                ).on_cpu() && *final(self) == *old(self),
                Err(_) => false,
            },
            !old(self).must_grow(max_page_id) && max_page_id <= usize::MAX ==> result is Ok,
    {
        if max_page_id > usize::MAX as u64 {
            return Err(PagedKvGpuError::PageIdTooLarge { page_id: max_page_id });
        }
        let needed: usize = max_page_id as usize;
        if needed <= self.capacity_pages {
            return Ok(());
        }
        if self.layout.num_layers == 0 || self.layout.num_kv_heads == 0 || self.layout.head_dim
            == 0 {
            return Ok(());
        }
        let new_capacity: usize = arith::next_power_of_two(needed);
        let dims = self.page_shape(new_capacity);
        assert(dims@ == self.page_dims(new_capacity));
        let new_pages = match tensors::zeros(dims, self.dtype, &self.device) {
            Ok(pages) => pages,
            Err(error) => {
                return Err(PagedKvGpuError::Failed(error));
            },
        };
        let ghost blank = new_pages;
        let filled = match &self.pages {
            Some(old_pages) => {
                proof {
                    let small = self.page_dims(self.capacity_pages);
                    let large = self.page_dims(new_capacity);
                    assert(small.skip(1) =~= large.skip(1));
                    tensors::lemma_span_of_fewer(large, small);
                    tensors::lemma_positive_dims(small);
                    assert(small[0] != large[0]);
                    assert(small.update(0, new_capacity) =~= large);
                }
                match tensors::slice_set(new_pages, old_pages, 0, 0) {
                    Ok(pages) => pages,
                    Err(error) => {
                        return Err(PagedKvGpuError::Failed(error));
                    },
                }
            },
            None => new_pages,
        };
        self.pages = Some(filled);
        self.capacity_pages = new_capacity;
        Ok(())
    }

    /// The errors that refuse a copy before anything is done.
    pub open spec fn copy_refused(&self, layers: int) -> bool {
        !tensors::dtype_is_bf16(self.dtype) || layers != self.layout.num_layers
    }

    /// Prepares the copy of `plan` from per-layer cache buffers into pages: makes room for its
    /// pages and counts the layers that have a buffer. Nothing is to be copied for an empty plan.
    pub fn copy_layers_from_cache_buffers(
        &mut self,
        layer_buffers: &[Option<(Tensor, Tensor)>],
        plan: &PagedKvNativeAppendPlan,
    ) -> (result: Result<Option<GpuLayerCopies>, PagedKvGpuError>)
        requires
            old(self).wf(),
            old(self).can_hold(largest_id(plan.page_ids@) as u64),
        ensures
            final(self).wf(),
            plan.page_ids@.len() == 0 ==> (result matches Ok(None)) && *final(self) == *old(self),
            plan.page_ids@.len() > 0 ==> match result {
                Ok(None) => false,
                Ok(Some(copies)) => {
                    &&& !old(self).copy_refused(layer_buffers@.len() as int)
                    &&& final(self).grown_from(*old(self), largest_id(plan.page_ids@) as u64)
                    &&& final(self).pages == Some(copies.pages)
                    &&& copies.ready == leading_layers(layer_buffers@)
                },
                Err(PagedKvGpuError::UnsupportedDtype) => !tensors::dtype_is_bf16(old(self).dtype)
                    && *final(self) == *old(self),
                Err(PagedKvGpuError::LayerCountMismatch { expected, actual }) => {
                    &&& tensors::dtype_is_bf16(old(self).dtype)
                    &&& expected == old(self).layout.num_layers
                    &&& actual == layer_buffers@.len()
                    &&& expected != actual
                    &&& *final(self) == *old(self)
                },
                Err(PagedKvGpuError::NotAllocated) => {
                    &&& !old(self).copy_refused(layer_buffers@.len() as int)
                    &&& final(self).grown_from(*old(self), largest_id(plan.page_ids@) as u64)
                    &&& final(self).pages is None
                },
                Err(PagedKvGpuError::Failed(_)) => {
                    &&& !old(self).copy_refused(layer_buffers@.len() as int)
                    &&& old(self).must_grow(largest_id(plan.page_ids@) as u64)
                    &&& !old(self).on_cpu()
                    &&& *final(self) == *old(self)
                },
                Err(_) => false,
            },
    {
        if plan.is_empty() {
            return Ok(None);
        }
        if !tensors::is_bf16(self.dtype) {
            return Err(PagedKvGpuError::UnsupportedDtype);
        }
        if layer_buffers.len() != self.layout.num_layers {
            return Err(
                PagedKvGpuError::LayerCountMismatch {
                    expected: self.layout.num_layers,
                    actual: layer_buffers.len(),
                },
            );
        }
        let max_page_id: u32 = largest(plan.page_ids.as_slice());
        assert(max_page_id as u64 == largest_id(plan.page_ids@) as u64);
        self.ensure_capacity(max_page_id as u64)?;
        match &self.pages {
            None => Err(PagedKvGpuError::NotAllocated),
            Some(pages) => Ok(
                Some(GpuLayerCopies { pages: pages.clone(), ready: leading(layer_buffers) }),
            ),
        }
    }

    /// Prepares the gather of one layer of several sequences, right-aligned, into zeros.
    pub fn gather_layer_right_aligned(
        &self,
        sequences: &[Option<&PagedKvSequence>],
        layer: usize,
        max_len: usize,
    ) -> (result: Result<GpuGather, PagedKvGpuError>)
        requires
            forall|r: int|
                0 <= r < sequences@.len() ==> match #[trigger] sequences@[r] {
                    Some(sequence) => sequence.block_size > 0,
                    None => true,
                },
            tensors::shape_allocates(self.gather_dims(sequences@.len() as usize, max_len)),
        ensures
            match result {
                Ok(gather) => {
                    &&& tensors::dtype_is_bf16(self.dtype)
                    &&& layer < self.layout.num_layers
                    &&& plan::gather_plan_error(sequences@, self.block_size, max_len) is None
                    &&& gather.plan.lists(
                        plan::gather_entries(sequences@, max_len as int, sequences@.len() as int),
                    )
                    &&& gather.output == tensors::tensor_of_zeros(
                        self.gather_dims(sequences@.len() as usize, max_len),
                        self.dtype,
                        self.device,
                    )
                    &&& gather.plan.page_ids@.len() > 0 ==> gather.pages is Some && gather.pages
                        == self.pages
                    &&& gather.plan.page_ids@.len() == 0 ==> gather.pages is None
                },
                Err(PagedKvGpuError::UnsupportedDtype) => !tensors::dtype_is_bf16(self.dtype),
                Err(PagedKvGpuError::LayerOutOfRange { layer: given, num_layers }) => {
                    &&& tensors::dtype_is_bf16(self.dtype)
                    &&& given == layer
                    &&& num_layers == self.layout.num_layers
                    &&& layer >= num_layers
                },
                Err(PagedKvGpuError::Plan(error)) => {
                    &&& tensors::dtype_is_bf16(self.dtype)
                    &&& layer < self.layout.num_layers
                    &&& plan::gather_plan_error(sequences@, self.block_size, max_len) == Some(error)
                },
                Err(PagedKvGpuError::NotAllocated) => {
                    &&& tensors::dtype_is_bf16(self.dtype)
                    &&& layer < self.layout.num_layers
                    &&& plan::gather_plan_error(sequences@, self.block_size, max_len) is None
                    &&& plan::gather_entries(
                        sequences@,
                        max_len as int,
                        sequences@.len() as int,
                    ).len() > 0
                    &&& self.pages is None
                },
                Err(PagedKvGpuError::Failed(_)) => {
                    &&& tensors::dtype_is_bf16(self.dtype)
                    &&& layer < self.layout.num_layers
                    &&& !self.on_cpu()
                },
                Err(_) => false,
            },
    {
        if !tensors::is_bf16(self.dtype) {
            return Err(PagedKvGpuError::UnsupportedDtype);
        }
        if layer >= self.layout.num_layers {
            return Err(
                PagedKvGpuError::LayerOutOfRange { layer, num_layers: self.layout.num_layers },
            );
        }
        let mut dims: Vec<usize> = Vec::new();
        dims.push(sequences.len());
        dims.push(self.layout.num_kv_heads);
        dims.push(max_len);
        dims.push(self.layout.head_dim);
        assert(dims@ =~= self.gather_dims(sequences@.len() as usize, max_len));
        let output = match tensors::zeros(dims, self.dtype, &self.device) {
            Ok(output) => output,
            Err(error) => {
                return Err(PagedKvGpuError::Failed(error));
            },
        };
        let plan = match PagedKvGatherPlan::from_optional_sequences(
            self.block_size,
            sequences,
            max_len,
        ) {
            Ok(plan) => plan,
            Err(error) => {
                return Err(PagedKvGpuError::Plan(error));
            },
        };
        if plan.entries() == 0 {
            return Ok(GpuGather { output, plan, pages: None });
        }
        match self.pages() {
            None => Err(PagedKvGpuError::NotAllocated),
            Some(pages) => Ok(GpuGather { output, plan, pages: Some(pages) }),
        }
    }

    /// Shape of a gathered batch.
    pub open spec fn gather_dims(&self, rows: usize, max_len: usize) -> Seq<usize> {
        seq![rows, self.layout.num_kv_heads, max_len, self.layout.head_dim]
    }

    /// The page exists in the page tensor and a kernel can name it.
    pub open spec fn zeroable(&self, page_id: u64) -> bool {
        0 < page_id <= self.capacity_pages && page_id <= u32::MAX
    }

    /// The pages among `page_ids` that exist and can be set to zero, in order; none where
    /// there is no page tensor or it does not hold BF16.
    pub fn zero_pages(&self, page_ids: &[u64]) -> (result: Vec<u32>)
        ensures
            self.pages is None || !tensors::dtype_is_bf16(self.dtype) ==> result@.len() == 0,
            self.pages is Some && tensors::dtype_is_bf16(self.dtype) ==> result@
                == page_ids@.filter(|id: u64| self.zeroable(id)).map_values(|id: u64| id as u32),
    {
        let mut result: Vec<u32> = Vec::new();
        if self.pages.is_none() || !tensors::is_bf16(self.dtype) {
            return result;
        }
        let ghost keep = |id: u64| self.zeroable(id);
        let mut i: usize = 0;
        assert(page_ids@.take(0).filter(keep).map_values(|id: u64| id as u32) =~= Seq::empty()) by {
            reveal_with_fuel(Seq::filter, 1);
        }
        while i < page_ids.len()
            invariant
                i <= page_ids@.len(),
                keep == (|id: u64| self.zeroable(id)),
                result@ == page_ids@.take(i as int).filter(keep).map_values(|id: u64| id as u32),
            decreases page_ids@.len() - i,
        {
            let id: u64 = page_ids[i];
            assert(page_ids@.take(i + 1).drop_last() =~= page_ids@.take(i as int));
            assert(page_ids@.take(i + 1).last() == id);
            proof {
                reveal_with_fuel(Seq::filter, 2);
            }
            if id > 0 && id <= self.capacity_pages as u64 && id <= 0xffff_ffff {
                result.push(id as u32);
                assert(result@ =~= page_ids@.take(i as int).filter(keep).push(id).map_values(
                    |id: u64| id as u32,
                ));
            }
            i = i + 1;
        }
        assert(page_ids@.take(i as int) =~= page_ids@);
        result
    }

    /// Values of one page.
    pub fn page_values(&self) -> (result: usize)
        requires
            self.layout.num_layers * 2 <= usize::MAX,
            self.layout.num_layers * 2 * self.block_size <= usize::MAX,
            self.layout.num_layers * 2 * self.block_size * self.layout.num_kv_heads <= usize::MAX,
            self.layout.num_layers * 2 * self.block_size * self.layout.num_kv_heads
                * self.layout.head_dim <= usize::MAX,
        ensures
            result == self.layout.num_layers * 2 * self.block_size * self.layout.num_kv_heads
                * self.layout.head_dim,
    {
        self.layout.num_layers * 2 * self.block_size * self.layout.num_kv_heads
            * self.layout.head_dim
    }
}

/// The largest of `ids`, or 0.
fn largest(ids: &[u32]) -> (result: u32)
    ensures
        result == largest_id(ids@),
{
    let mut result: u32 = 0;
    let mut i: usize = 0;
    while i < ids.len()
        invariant
            i <= ids@.len(),
            result == largest_id(ids@.take(i as int)),
        decreases ids@.len() - i,
    {
        assert(ids@.take(i + 1).drop_last() =~= ids@.take(i as int));
        if ids[i] > result {
            result = ids[i];
        }
        i = i + 1;
    }
    assert(ids@.take(i as int) =~= ids@);
    result
}

/// Counts the layers before the first one without a buffer.
fn leading(caches: &[Option<(Tensor, Tensor)>]) -> (result: usize)
    ensures
        result == leading_layers(caches@),
        result <= caches@.len(),
{
    let mut result: usize = 0;
    let mut i: usize = 0;
    while i < caches.len()
        invariant
            i <= caches@.len(),
            result <= i,
            result == leading_layers(caches@.take(i as int)),
        decreases caches@.len() - i,
    {
        assert(caches@.take(i + 1).drop_last() =~= caches@.take(i as int));
        if result == i && caches[i].is_some() {
            result = result + 1;
        }
        i = i + 1;
    }
    assert(caches@.take(i as int) =~= caches@);
    result
}

/// Growing never loses capacity, and afterwards the page exists unless pages hold no value.
pub proof fn law_growth_reaches_page(
    before: PagedKvGpuPageStore,
    after: PagedKvGpuPageStore,
    max_page_id: u64,
)
    requires
        before.wf(),
        max_page_id <= usize::MAX,
        after.grown_from(before, max_page_id),
    ensures
        after.capacity_pages >= before.capacity_pages,
        after.capacity_pages >= max_page_id || before.degenerate(),
{
}

/// Growing keeps every page that was there, element by element, at its number, and the pages that
/// are new hold zeros.
pub proof fn law_growth_keeps_pages(
    e: Elements,
    before: PagedKvGpuPageStore,
    after: PagedKvGpuPageStore,
    max_page_id: u64,
    place: Seq<int>,
)
    requires
        elements::exact(e),
        elements::overwrites(e),
        before.wf(),
        before.must_grow(max_page_id),
        after.grown_from(before, max_page_id),
        elements::within(place, after.page_dims(after.capacity_pages)),
    ensures
        after.pages matches Some(now) && {
            &&& place[0] < before.capacity_pages ==> before.pages is Some && (e.at)(now, place) == (
            e.at)(before.pages->Some_0, place)
            &&& place[0] >= before.capacity_pages ==> (e.at)(now, place) == 0 as real
        },
{
    let wide = before.page_dims(after.capacity_pages);
    let blank = tensors::tensor_of_zeros(wide, before.dtype, before.device);
    assert(after.page_dims(after.capacity_pages) == wide);
    assert(elements::all_are(e, blank, wide, 0 as real));
    assert((e.at)(blank, place) == 0 as real);
    match before.pages {
        Some(pages) => {
            let size = tensors::tensor_dims(pages);
            assert(elements::overwritten_reads(e, blank, pages, 0, 0));
            assert(size =~= wide.update(0, size[0]));
            assert(size[0] == before.capacity_pages && wide[0] == after.capacity_pages);
            law_growth_reaches_page(before, after, max_page_id);
            assert(place.update(0, place[0] - 0) =~= place);
            assert(0 <= place[0] < wide[0]);
        },
        None => {
            assert(0 <= place[0] < wide[0]);
        },
    }
}

/// Layers are taken up to the first one without a buffer: all before it have one, and it has none.
pub proof fn law_layers_end_at_the_first_gap(caches: Seq<Option<(Tensor, Tensor)>>)
    ensures
        0 <= leading_layers(caches) <= caches.len(),
        forall|l: int| 0 <= l < leading_layers(caches) ==> (#[trigger] caches[l]) is Some,
        leading_layers(caches) < caches.len() ==> caches[leading_layers(caches)] is None,
    decreases caches.len(),
{
    if caches.len() > 0 {
        let head = caches.drop_last();
        law_layers_end_at_the_first_gap(head);
        assert forall|l: int| 0 <= l < leading_layers(caches) implies (
        #[trigger] caches[l]) is Some by {
            if l < head.len() {
                assert(head[l] == caches[l]);
                if leading_layers(caches) == caches.len() {
                    assert(leading_layers(head) == head.len());
                }
            }
        }
    }
}

/// No id is above the largest, and where there are ids the largest is one of them, or all are 0.
pub proof fn law_largest_id_is_one_of_them(ids: Seq<u32>)
    ensures
        forall|i: int| 0 <= i < ids.len() ==> #[trigger] ids[i] <= largest_id(ids),
        largest_id(ids) > 0 ==> ids.contains(largest_id(ids) as u32),
        largest_id(ids) >= 0,
    decreases ids.len(),
{
    if ids.len() > 0 {
        let head = ids.drop_last();
        law_largest_id_is_one_of_them(head);
        assert forall|i: int| 0 <= i < ids.len() implies #[trigger] ids[i] <= largest_id(ids) by {
            if i < head.len() {
                assert(head[i] == ids[i]);
            }
        }
        if largest_id(ids) > 0 {
            if ids.last() > largest_id(head) {
                assert(ids[ids.len() - 1] == largest_id(ids) as u32);
            } else {
                let k = head.index_of(largest_id(head) as u32);
                assert(ids[k] == largest_id(ids) as u32);
            }
        }
    }
}

} // verus!
