//! Checks the page path against direct packing, value by value.
//!
//! Values are compared as the bit patterns of singles.
use super::extract::{self, KvCacheLenError};
use super::rows;
use super::state::{self, InferenceEngine};
use crate::paged_kv::batch as page_batch;
use crate::paged_kv::cells;
use crate::paged_kv::ownership;
use crate::paged_kv::storage_laws;
use crate::paged_kv::{
    build_right_aligned_head_major_batch, gather_head_major_layer_via_pages, PagedKvLayout,
    PagedKvPlane, PagedKvSequence, PagedKvStorageError,
};
use crate::tensors::{self, LayerKvCaches};
use candle_core::Tensor;
use vstd::prelude::*;

verus! {

/// What was compared.
#[derive(Debug, Clone, Copy, PartialEq, Eq, Structural)]
pub struct PagedKvShadowGatherReport {
    pub layers: usize,
    pub sequences: usize,
    pub values_compared: usize,
}

/// Why a comparison is not possible, or what it found.
#[derive(Debug)]
pub enum ShadowError {
    CountMismatch { batch: usize, caches: usize },
    EmptyLayout { layout: PagedKvLayout },
    MissingSequence { id: u64 },
    CacheLen(KvCacheLenError),
    TokenLenMismatch { row: usize, paged: usize, cache: usize },
    /// A sequence has a cache, but not in this layer.
    MissingLayer { row: usize, cache_len: usize, layer: usize },
    NotFourDims { row: usize, layer: usize, plane: PagedKvPlane },
    ShapeMismatch { row: usize, layer: usize, plane: PagedKvPlane },
    /// A cache could not be read.
    Failed(candle_core::Error),
    Storage(PagedKvStorageError),
    LenMismatch { layer: usize, plane: PagedKvPlane, gathered: usize, direct: usize },
    ValueMismatch { layer: usize, plane: PagedKvPlane, index: usize },
}

/// What to compare: the tokens of each row, the longest of them, and how many layers.
#[derive(Debug)]
pub struct ShadowPlan {
    pub kv_lens: Vec<usize>,
    pub max_len: usize,
    pub layers: usize,
}

/// The smaller number.
pub open spec fn lesser(a: int, b: int) -> int {
    if a <= b {
        a
    } else {
        b
    }
}

/// Values of `tokens` tokens in one plane of one layer.
pub open spec fn plane_values(layout: PagedKvLayout, tokens: int) -> int {
    tokens * layout.num_kv_heads * layout.head_dim
}

/// Why a tensor does not hold one plane of a row.
pub open spec fn shape_error(
    dims: Seq<usize>,
    layout: PagedKvLayout,
    seq_len: usize,
    row: usize,
    layer: usize,
    plane: PagedKvPlane,
) -> Option<ShadowError> {
    if dims.len() != 4 {
        Some(ShadowError::NotFourDims { row, layer, plane })
    } else if dims[0] != 1 || dims[1] != layout.num_kv_heads || dims[2] != seq_len || dims[3]
        != layout.head_dim {
        Some(ShadowError::ShapeMismatch { row, layer, plane })
    } else {
        None
    }
}

/// Checks that a tensor holds one plane of a row.
pub fn check_plane_shape(
    tensor: &Tensor,
    layout: PagedKvLayout,
    seq_len: usize,
    row: usize,
    layer: usize,
    plane: PagedKvPlane,
) -> (result: Result<(), ShadowError>)
    ensures
        match result {
            Ok(_) => shape_error(
                tensors::tensor_dims(*tensor),
                layout,
                seq_len,
                row,
                layer,
                plane,
            ) is None,
            Err(error) => shape_error(
                tensors::tensor_dims(*tensor),
                layout,
                seq_len,
                row,
                layer,
                plane,
            ) == Some(error),
        },
{
    let dims = tensors::dims(tensor);
    if dims.len() != 4 {
        return Err(ShadowError::NotFourDims { row, layer, plane });
    }
    if dims[0] != 1 || dims[1] != layout.num_kv_heads || dims[2] != seq_len || dims[3]
        != layout.head_dim {
        return Err(ShadowError::ShapeMismatch { row, layer, plane });
    }
    Ok(())
}

/// Layer `layer` of these caches is there.
pub open spec fn layer_held(caches: Seq<Option<(Tensor, Tensor)>>, layer: int) -> bool {
    0 <= layer < caches.len() && caches[layer] is Some
}

/// One plane of a layer.
pub open spec fn plane_of(cache: (Tensor, Tensor), plane: PagedKvPlane) -> Tensor {
    match plane {
        PagedKvPlane::Key => cache.0,
        PagedKvPlane::Value => cache.1,
    }
}

/// What to read of one row of a layer: a plane of the right shape, or nothing where the row is
/// empty.
pub fn row_to_compare(
    caches: &LayerKvCaches,
    layout: PagedKvLayout,
    seq_len: usize,
    row: usize,
    layer: usize,
    plane: PagedKvPlane,
) -> (result: Result<Option<Tensor>, ShadowError>)
    ensures
        match result {
            Ok(Some(tensor)) => {
                &&& layer_held(caches@, layer as int)
                &&& tensor == plane_of(caches@[layer as int]->Some_0, plane)
                &&& shape_error(
                    tensors::tensor_dims(tensor),
                    layout,
                    seq_len,
                    row,
                    layer,
                    plane,
                ) is None
            },
            Ok(None) => !layer_held(caches@, layer as int) && seq_len == 0,
            Err(error) => if layer_held(caches@, layer as int) {
                shape_error(
                    tensors::tensor_dims(plane_of(caches@[layer as int]->Some_0, plane)),
                    layout,
                    seq_len,
                    row,
                    layer,
                    plane,
                ) == Some(error)
            } else {
                seq_len > 0 && error == (ShadowError::MissingLayer {
                    row,
                    cache_len: seq_len,
                    layer,
                })
            },
        },
{
    if layer < caches.len() {
        if let Some((key, value)) = &caches[layer] {
            let tensor = match plane {
                PagedKvPlane::Key => key.clone(),
                PagedKvPlane::Value => value.clone(),
            };
            return match check_plane_shape(&tensor, layout, seq_len, row, layer, plane) {
                Ok(_) => Ok(Some(tensor)),
                Err(error) => Err(error),
            };
        }
    }
    if seq_len == 0 {
        Ok(None)
    } else {
        Err(ShadowError::MissingLayer { row, cache_len: seq_len, layer })
    }
}

/// The first place where two lists differ, below `upto`.
pub open spec fn first_difference(left: Seq<u32>, right: Seq<u32>, index: int) -> bool {
    &&& 0 <= index < left.len()
    &&& index < right.len()
    &&& left[index] != right[index]
    &&& forall|j: int| 0 <= j < index ==> #[trigger] left[j] == right[j]
}

/// Compares gathered with directly packed values and counts them.
pub fn ensure_shadow_values_match(
    layer: usize,
    plane: PagedKvPlane,
    gathered: &[u32],
    direct: &[u32],
) -> (result: Result<usize, ShadowError>)
    ensures
        match result {
            Ok(count) => gathered@ == direct@ && count == gathered@.len(),
            Err(ShadowError::LenMismatch { layer: l, plane: p, gathered: g, direct: d }) => {
                &&& gathered@.len() != direct@.len()
                &&& l == layer && p == plane && g == gathered@.len() && d == direct@.len()
            },
            Err(ShadowError::ValueMismatch { layer: l, plane: p, index }) => {
                &&& gathered@.len() == direct@.len()
                &&& l == layer && p == plane
                &&& first_difference(gathered@, direct@, index as int)
            },
            Err(_) => false,
        },
{
    if gathered.len() != direct.len() {
        return Err(
            ShadowError::LenMismatch {
                layer,
                plane,
                gathered: gathered.len(),
                direct: direct.len(),
            },
        );
    }
    let mut i: usize = 0;
    while i < gathered.len()
        invariant
            i <= gathered@.len(),
            gathered@.len() == direct@.len(),
            forall|j: int| 0 <= j < i ==> #[trigger] gathered@[j] == direct@[j],
        decreases gathered@.len() - i,
    {
        if gathered[i] != direct[i] {
            return Err(ShadowError::ValueMismatch { layer, plane, index: i });
        }
        i = i + 1;
    }
    assert(gathered@ =~= direct@);
    Ok(gathered.len())
}

/// Tokens of the caches of the first `rows` rows, or the first error.
pub open spec fn cache_lens(caches: Seq<LayerKvCaches>, rows: int) -> Result<
    Seq<usize>,
    KvCacheLenError,
>
    decreases rows,
{
    if rows <= 0 {
        Ok(Seq::empty())
    } else {
        match cache_lens(caches, rows - 1) {
            Err(error) => Err(error),
            Ok(head) => match extract::caches_len(
                (rows - 1) as usize,
                caches[rows - 1]@,
                caches[rows - 1]@.len() as int,
            ) {
                Err(error) => Err(error),
                Ok(Some(len)) => Ok(head.push(len)),
                Ok(None) => Ok(head.push(0)),
            },
        }
    }
}

proof fn lemma_cache_lens_error_stays(caches: Seq<LayerKvCaches>, few: int, all: int)
    requires
        few <= all,
        cache_lens(caches, few) is Err,
    ensures
        cache_lens(caches, all) == cache_lens(caches, few),
    decreases all - few,
{
    if few < all {
        lemma_cache_lens_error_stays(caches, few, all - 1);
    }
}

fn row_lens(caches: &Vec<LayerKvCaches>) -> (result: Result<Vec<usize>, KvCacheLenError>)
    ensures
        match result {
            Ok(lens) => cache_lens(caches@, caches@.len() as int) == Ok::<
                Seq<usize>,
                KvCacheLenError,
            >(lens@) && lens@.len() == caches@.len(),
            Err(error) => cache_lens(caches@, caches@.len() as int) == Err::<
                Seq<usize>,
                KvCacheLenError,
            >(error),
        },
{
    let mut lens: Vec<usize> = Vec::new();
    let mut r: usize = 0;
    while r < caches.len()
        invariant
            r <= caches@.len(),
            lens@.len() == r,
            cache_lens(caches@, r as int) == Ok::<Seq<usize>, KvCacheLenError>(lens@),
        decreases caches@.len() - r,
    {
        match extract::sequence_kv_cache_len(r, caches[r].as_slice()) {
            Ok(len) => {
                lens.push(len);
            },
            Err(error) => {
                proof {
                    lemma_cache_lens_error_stays(caches@, r + 1, caches@.len() as int);
                }
                return Err(error);
            },
        }
        r = r + 1;
    }
    Ok(lens)
}

/// The largest of a list of numbers, or 0.
pub open spec fn longest(lens: Seq<usize>) -> int {
    rows::largest(Seq::new(lens.len(), |r: int| Some(lens[r])))
}

/// No number of a list is above its largest.
pub proof fn lemma_longest(lens: Seq<usize>)
    ensures
        0 <= longest(lens),
        forall|r: int| 0 <= r < lens.len() ==> #[trigger] lens[r] <= longest(lens),
{
    let options = Seq::new(lens.len(), |r: int| Some(lens[r]));
    rows::lemma_largest(options);
    assert forall|r: int| 0 <= r < lens.len() implies #[trigger] lens[r] <= longest(lens) by {
        assert(options[r] == Some(lens[r]));
    }
}

fn find_longest(lens: &Vec<usize>) -> (result: usize)
    ensures
        result == longest(lens@),
{
    let mut options: Vec<Option<usize>> = Vec::new();
    let mut r: usize = 0;
    while r < lens.len()
        invariant
            r <= lens@.len(),
            options@ =~= Seq::new(r as nat, |j: int| Some(lens@[j])),
        decreases lens@.len() - r,
    {
        options.push(Some(lens[r]));
        r = r + 1;
    }
    rows::find_largest(&options)
}

/// `a * b` where it fits.
fn product_fits(a: usize, b: usize) -> (result: Option<usize>)
    ensures
        match result {
            Some(product) => product == a * b,
            None => a * b > usize::MAX,
        },
{
    a.checked_mul(b)
}

impl InferenceEngine {
    /// Page tables of a batch.
    pub open spec fn batch_tables(&self, batch: Seq<u64>) -> Seq<&PagedKvSequence> {
        Seq::new(batch.len(), |r: int| &self.sequence(batch[r]).paged_kv)
    }

    /// Why a batch cannot be compared.
    pub open spec fn shadow_error(&self, batch: Seq<u64>, caches: Seq<LayerKvCaches>, error:
        ShadowError) -> bool {
        let layout = self.paged_kv_allocator.layout;
        let known = forall|r: int| 0 <= r < batch.len() ==> self.has(#[trigger] batch[r]);
        let empty = layout.num_layers == 0 || layout.num_kv_heads == 0 || layout.head_dim == 0;
        match error {
            ShadowError::CountMismatch { batch: b, caches: c } => {
                &&& batch.len() != caches.len()
                &&& b == batch.len() && c == caches.len()
            },
            ShadowError::EmptyLayout { layout: given } => {
                &&& batch.len() == caches.len()
                &&& empty && given == layout
            },
            ShadowError::MissingSequence { id } => {
                &&& batch.len() == caches.len() && !empty
                &&& exists|r: int|
                    0 <= r < batch.len() && #[trigger] batch[r] == id && !self.has(id) && forall|
                        q: int,
                    |
                        0 <= q < r ==> self.has(#[trigger] batch[q])
            },
            ShadowError::CacheLen(inner) => {
                &&& batch.len() == caches.len() && !empty && known
                &&& cache_lens(caches, caches.len() as int) == Err::<Seq<usize>, KvCacheLenError>(
                    inner,
                )
            },
            ShadowError::TokenLenMismatch { row, paged, cache } => {
                &&& batch.len() == caches.len() && !empty && known && row < batch.len()
                &&& cache_lens(caches, caches.len() as int) matches Ok(lens) && {
                    &&& longest(lens) > 0
                    &&& self.shadow_layers() > 0
                    &&& cache == lens[row as int]
                    &&& paged == self.sequence(batch[row as int]).paged_kv.token_len
                    &&& paged != cache
                    &&& forall|q: int|
                        0 <= q < row ==> self.sequence(
                            #[trigger] batch[q],
                        ).paged_kv.token_len == lens[q]
                }
            },
            _ => false,
        }
    }

    /// Layers to compare.
    pub open spec fn shadow_layers(&self) -> int {
        lesser(
            lesser(
                self.settings.paged_kv_shadow_max_layers as int,
                self.paged_kv_allocator.layout.num_layers as int,
            ),
            self.settings.num_layers as int,
        )
    }

    /// Plans the comparison of a batch. Nothing is to be compared where the longest row is empty
    /// or no layer is asked for.
    pub fn plan_shadow(&self, batch: &Vec<u64>, caches: &Vec<LayerKvCaches>) -> (result: Result<
        ShadowPlan,
        ShadowError,
    >)
        requires
            self.wf(),
        ensures
            match result {
                Ok(plan) => {
                    &&& batch@.len() == caches@.len()
                    &&& self.paged_kv_allocator.layout.num_layers > 0
                    &&& self.paged_kv_allocator.layout.num_kv_heads > 0
                    &&& self.paged_kv_allocator.layout.head_dim > 0
                    &&& forall|r: int| 0 <= r < batch@.len() ==> self.has(#[trigger] batch@[r])
                    &&& cache_lens(caches@, caches@.len() as int) == Ok::<
                        Seq<usize>,
                        KvCacheLenError,
                    >(plan.kv_lens@)
                    &&& plan.kv_lens@.len() == batch@.len()
                    &&& plan.max_len == longest(plan.kv_lens@)
                    &&& plan.layers == if plan.max_len == 0 {
                        0
                    } else {
                        self.shadow_layers()
                    }
                    &&& plan.layers > 0 ==> forall|r: int|
                        0 <= r < batch@.len() ==> self.sequence(
                            #[trigger] batch@[r],
                        ).paged_kv.token_len == plan.kv_lens@[r]
                },
                Err(error) => self.shadow_error(batch@, caches@, error),
            },
    {
        if batch.len() != caches.len() {
            return Err(ShadowError::CountMismatch { batch: batch.len(), caches: caches.len() });
        }
        let layout = self.paged_kv_allocator.layout();
        if layout.num_layers == 0 || layout.num_kv_heads == 0 || layout.head_dim == 0 {
            return Err(ShadowError::EmptyLayout { layout });
        }
        let mut r: usize = 0;
        while r < batch.len()
            invariant
                r <= batch@.len(),
                self.wf(),
                batch@.len() == caches@.len(),
                layout == self.paged_kv_allocator.layout,
                !(layout.num_layers == 0 || layout.num_kv_heads == 0 || layout.head_dim == 0),
                forall|q: int| 0 <= q < r ==> self.has(#[trigger] batch@[q]),
            decreases batch@.len() - r,
        {
            if self.find(batch[r]).is_none() {
                assert(batch@[r as int] == batch[r as int]);
                return Err(ShadowError::MissingSequence { id: batch[r] });
            }
            r = r + 1;
        }
        let kv_lens = match row_lens(caches) {
            Ok(lens) => lens,
            Err(error) => {
                return Err(ShadowError::CacheLen(error));
            },
        };
        let max_len: usize = find_longest(&kv_lens);
        let layers: usize = self.count_shadow_layers();
        if max_len == 0 || layers == 0 {
            return Ok(ShadowPlan { kv_lens, max_len, layers: 0 });
        }
        let mut q: usize = 0;
        while q < batch.len()
            invariant
                q <= batch@.len(),
                self.wf(),
                batch@.len() == caches@.len(),
                kv_lens@.len() == batch@.len(),
                layout == self.paged_kv_allocator.layout,
                !(layout.num_layers == 0 || layout.num_kv_heads == 0 || layout.head_dim == 0),
                layers == self.shadow_layers(),
                layers > 0,
                max_len == longest(kv_lens@),
                max_len > 0,
                cache_lens(caches@, caches@.len() as int) == Ok::<Seq<usize>, KvCacheLenError>(
                    kv_lens@,
                ),
                forall|j: int| 0 <= j < batch@.len() ==> self.has(#[trigger] batch@[j]),
                forall|j: int|
                    0 <= j < q ==> self.sequence(#[trigger] batch@[j]).paged_kv.token_len
                        == kv_lens@[j],
            decreases batch@.len() - q,
        {
            match self.find(batch[q]) {
                Some(i) => {
                    let paged: usize = self.sequences[i].paged_kv.token_len();
                    if paged != kv_lens[q] {
                        return Err(
                            ShadowError::TokenLenMismatch { row: q, paged, cache: kv_lens[q] },
                        );
                    }
                },
                None => {
                    assert(self.has(batch@[q as int]));
                    assert(false);
                },
            }
            q = q + 1;
        }
        Ok(ShadowPlan { kv_lens, max_len, layers })
    }

    /// The machine can address what a comparison builds.
    pub open spec fn shadow_fits(&self, batch: Seq<u64>, max_len: int) -> bool {
        let layout = self.paged_kv_allocator.layout;
        &&& layout.addressable(self.paged_kv_allocator.block_size as int)
        &&& layout.batch_addressable(batch.len() as int, max_len)
        &&& max_len * layout.width() <= usize::MAX
        &&& 2 * self.shadow_layers() * (batch.len() * layout.row_stride(max_len)) <= usize::MAX
    }

    /// Whether the machine can address what a comparison builds.
    pub fn can_shadow(&self, batch: &Vec<u64>, max_len: usize) -> (result: bool)
        requires
            self.wf(),
        ensures
            result == self.shadow_fits(batch@, max_len as int),
    {
        let layout = self.paged_kv_allocator.layout();
        let size: usize = self.paged_kv_allocator.block_size();
        let width = match product_fits(layout.num_kv_heads, layout.head_dim) {
            Some(width) => width,
            None => {
                return false;
            },
        };
        let planes = match product_fits(layout.num_layers, 2) {
            Some(planes) => planes,
            None => {
                return false;
            },
        };
        if product_fits(planes, size).is_none() {
            return false;
        }
        let page = page_len(layout, size, width);
        if page.is_none() {
            return false;
        }
        let row = match product_fits(layout.num_kv_heads, max_len) {
            Some(cells) => match product_fits(cells, layout.head_dim) {
                Some(row) => row,
                None => {
                    return false;
                },
            },
            None => {
                return false;
            },
        };
        let all = match product_fits(batch.len(), row) {
            Some(all) => all,
            None => {
                return false;
            },
        };
        let layers: usize = self.count_shadow_layers();
        assert(layers * 2 <= usize::MAX) by (nonlinear_arith)
            requires
                layers <= layout.num_layers,
                layout.num_layers * 2 <= usize::MAX,
        ;
        product_fits(max_len, width).is_some() && product_fits(2 * layers, all).is_some()
    }

    fn count_shadow_layers(&self) -> (result: usize)
        ensures
            result == self.shadow_layers(),
    {
        let mut layers: usize = self.settings.paged_kv_shadow_max_layers;
        let paged: usize = self.paged_kv_allocator.layout().num_layers;
        if layers > paged {
            layers = paged;
        }
        if layers > self.settings.num_layers {
            layers = self.settings.num_layers;
        }
        layers
    }

    /// Compares one plane of one layer: what goes through pages has to be what is packed
    /// directly. `values` are the rows, head after head.
    pub fn shadow_plane(
        &self,
        batch: &Vec<u64>,
        plan: &ShadowPlan,
        layer: usize,
        plane: PagedKvPlane,
        values: &Vec<Vec<u32>>,
    ) -> (result: Result<usize, ShadowError>)
        requires
            self.wf(),
            batch@.no_duplicates(),
            self.shadow_fits(batch@, plan.max_len as int),
            plan.kv_lens@.len() == batch@.len(),
            forall|r: int|
                0 <= r < batch@.len() ==> self.has(#[trigger] batch@[r]) && self.sequence(
                    batch@[r],
                ).paged_kv.token_len == plan.kv_lens@[r] && plan.kv_lens@[r] <= plan.max_len,
        ensures
            match result {
                Ok(count) => {
                    &&& page_batch::via_pages_error(
                        self.paged_kv_allocator.layout,
                        self.paged_kv_allocator.block_size,
                        self.batch_tables(batch@),
                        layer,
                        values@,
                        plan.max_len,
                    ) is None
                    &&& page_batch::build_error(
                        self.paged_kv_allocator.layout,
                        plan.kv_lens@,
                        plan.max_len,
                        values@,
                    ) is None
                    &&& count == batch@.len() * self.paged_kv_allocator.layout.row_stride(
                        plan.max_len as int,
                    )
                },
                Err(ShadowError::Storage(error)) => {
                    ||| page_batch::via_pages_error(
                        self.paged_kv_allocator.layout,
                        self.paged_kv_allocator.block_size,
                        self.batch_tables(batch@),
                        layer,
                        values@,
                        plan.max_len,
                    ) == Some(error)
                    ||| page_batch::via_pages_error(
                        self.paged_kv_allocator.layout,
                        self.paged_kv_allocator.block_size,
                        self.batch_tables(batch@),
                        layer,
                        values@,
                        plan.max_len,
                    ) is None && page_batch::build_error(
                        self.paged_kv_allocator.layout,
                        plan.kv_lens@,
                        plan.max_len,
                        values@,
                    ) == Some(error)
                },
                Err(_) => false,
            },
    {
        let layout = self.paged_kv_allocator.layout();
        let block_size: usize = self.paged_kv_allocator.block_size();
        let mut tables: Vec<&PagedKvSequence> = Vec::new();
        let mut r: usize = 0;
        while r < batch.len()
            invariant
                r <= batch@.len(),
                self.wf(),
                forall|j: int| 0 <= j < batch@.len() ==> self.has(#[trigger] batch@[j]),
                tables@ =~= self.batch_tables(batch@).take(r as int),
            decreases batch@.len() - r,
        {
            match self.find(batch[r]) {
                Some(i) => {
                    tables.push(&self.sequences[i].paged_kv);
                },
                None => {
                    assert(self.has(batch@[r as int]));
                    assert(false);
                },
            }
            r = r + 1;
        }
        assert(self.batch_tables(batch@).take(r as int) =~= self.batch_tables(batch@));
        proof {
            self.lemma_batch_slots_distinct(batch@);
            assert forall|j: int| 0 <= j < tables@.len() implies (#[trigger] tables@[j]).wf()
                && tables@[j].token_len * layout.width() <= usize::MAX by {
                assert(self.has(batch@[j]));
                let k = state::index_of(self.sequences@, batch@[j]);
                assert(self.sequences@[k].wf());
                assert(tables@[j].token_len * layout.width() <= plan.max_len * layout.width())
                    by (nonlinear_arith)
                    requires
                        tables@[j].token_len <= plan.max_len,
                        layout.width() >= 0,
                ;
            }
            assert(layout.width() >= 0) by (nonlinear_arith)
                requires
                    layout.width() == layout.num_kv_heads * layout.head_dim,
            ;
        }
        let gathered = match gather_head_major_layer_via_pages(
            block_size,
            layout,
            tables.as_slice(),
            layer,
            plane,
            values.as_slice(),
            plan.max_len,
        ) {
            Ok(gathered) => gathered,
            Err(error) => {
                return Err(ShadowError::Storage(error));
            },
        };
        let direct = match build_right_aligned_head_major_batch(
            layout,
            plan.kv_lens.as_slice(),
            plan.max_len,
            values.as_slice(),
        ) {
            Ok(direct) => direct,
            Err(error) => {
                return Err(ShadowError::Storage(error));
            },
        };
        proof {
            assert forall|j: int| 0 <= j < batch@.len() implies tables@[j].token_len
                == plan.kv_lens@[j] by {
                assert(self.has(batch@[j]));
            }
            storage_laws::law_right_aligned_is_unique(
                layout,
                plan.max_len as int,
                batch@.len() as int,
                gathered@,
                direct@,
                |row: int| tables@[row].token_len as int,
                |row: int| plan.kv_lens@[row] as int,
                |row: int, head: int, token: int|
                    cells::head_run(
                        layout,
                        values@[row]@,
                        tables@[row].token_len as int,
                        head,
                        token,
                    ),
                |row: int, head: int, token: int|
                    cells::head_run(
                        layout,
                        values@[row]@,
                        plan.kv_lens@[row] as int,
                        head,
                        token,
                    ),
            );
        }
        ensure_shadow_values_match(layer, plane, gathered.as_slice(), direct.as_slice())
    }

    /// No two tokens of different sequences share a place in a page.
    proof fn lemma_batch_slots_distinct(&self, batch: Seq<u64>)
        requires
            self.wf(),
            batch.no_duplicates(),
            forall|r: int| 0 <= r < batch.len() ==> self.has(#[trigger] batch[r]),
        ensures
            page_batch::slots_distinct(self.batch_tables(batch)),
    {
        let tables = self.batch_tables(batch);
        let all = state::page_tables(self.sequences@);
        assert forall|r: int, t: int|
            #![trigger tables[r].slot(t)]
            0 <= r < tables.len() && 0 <= t < tables[r].token_len implies page_batch::last_in_batch(
            tables,
            r,
            t,
            tables.len() as int,
        ) by {
            assert forall|r2: int, t2: int|
                0 <= r2 < tables.len() && 0 <= t2 < tables[r2].token_len && (r2 > r || (r2 == r
                    && t2 > t)) implies #[trigger] tables[r2].slot(t2) != tables[r].slot(t) by {
                assert(self.has(batch[r]) && self.has(batch[r2]));
                let i = state::index_of(self.sequences@, batch[r]);
                let j = state::index_of(self.sequences@, batch[r2]);
                assert(self.sequences@[i].id == batch[r]);
                assert(self.sequences@[j].id == batch[r2]);
                if r2 > r {
                    assert(batch[r] != batch[r2]);
                }
                ownership::law_slots_disjoint(self.paged_kv_allocator, all, j, t2, i, t);
            }
        }
    }
}

/// Values of one page, where they fit.
fn page_len(layout: PagedKvLayout, block_size: usize, width: usize) -> (result: Option<usize>)
    requires
        width == layout.width(),
    ensures
        match result {
            Some(len) => len == layout.page_len(block_size as int),
            None => layout.page_len(block_size as int) > usize::MAX,
        },
{
    let ghost plane_exact = block_size * width;
    let ghost both_exact = 2 * plane_exact;
    if layout.num_layers == 0 {
        assert(layout.page_len(block_size as int) == 0) by (nonlinear_arith)
            requires
                layout.page_len(block_size as int) == layout.num_layers * (2 * (block_size
                    * layout.width())),
                layout.num_layers == 0,
        ;
        return Some(0);
    }
    proof {
        assert(layout.num_layers * both_exact >= both_exact) by (nonlinear_arith)
            requires
                layout.num_layers >= 1,
                both_exact >= 0,
                both_exact == 2 * plane_exact,
                plane_exact == block_size * width,
        ;
        assert(plane_exact >= 0) by (nonlinear_arith)
            requires
                plane_exact == block_size * width,
        ;
    }
    let plane = match product_fits(block_size, width) {
        Some(plane) => plane,
        None => {
            return None;
        },
    };
    let both = match product_fits(2, plane) {
        Some(both) => both,
        None => {
            return None;
        },
    };
    product_fits(layout.num_layers, both)
}

/// No more layers are compared than asked for, than pages have, or than the model has; and all that
/// are in all three. Keys are compared with keys and values with values.
pub proof fn law_asked_layers_are_compared(
    engine: InferenceEngine,
    layer: int,
    key: Tensor,
    value: Tensor,
)
    requires
        layer >= 0,
    ensures
        layer < engine.shadow_layers() <==> layer < engine.settings.paged_kv_shadow_max_layers
            && layer < engine.paged_kv_allocator.layout.num_layers && layer
            < engine.settings.num_layers,
        plane_of((key, value), PagedKvPlane::Key) == key,
        plane_of((key, value), PagedKvPlane::Value) == value,
{
}

} // verus!
