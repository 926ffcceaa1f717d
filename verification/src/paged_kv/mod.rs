//! Paged KV cache: page tables, page contents and batch plans.
//!
//! A sequence owns a list of fixed-size blocks, each backed by one page. The
//! allocator hands pages out and takes them back; page stores hold key and
//! value planes per layer; plans describe batched copies between pages and
//! contiguous head-major buffers.

pub mod allocator;
pub mod batch;
pub mod cells;
pub mod gpu_store;
pub mod layout;
pub mod ownership;
pub mod plan;
pub mod sequence;
pub mod storage_laws;
pub mod store;

pub use allocator::{
    PagedKvAllocator, PagedKvAllocatorSnapshot, PagedKvCompaction, PagedKvUpdate,
};
pub use batch::{build_right_aligned_head_major_batch, gather_head_major_layer_via_pages};
pub use gpu_store::{GpuGather, GpuLayerCopies, PagedKvGpuError, PagedKvGpuPageStore};
pub use layout::{PagedKvLayout, PagedKvPlane, PagedKvStorageError};
pub use store::PagedKvPageStore;
pub use plan::{PagedKvBatchPageTable, PagedKvGatherPlan, PagedKvNativeAppendPlan};
pub use sequence::{PagedKvBlock, PagedKvSequence, DEFAULT_BLOCK_SIZE};
