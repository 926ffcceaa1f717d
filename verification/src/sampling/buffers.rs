//! Tensors that sampling keeps for reuse.
use crate::tensor_math;
use crate::tensors::{self, TensorResult};
use candle_core::{DType, Device, Tensor};
use std::collections::HashMap;
use vstd::prelude::*;

verus! {

broadcast use vstd::std_specs::hash::group_hash_axioms;

/// Persistent tensors for top-k and top-p sampling, by the number of candidates.
pub struct SamplingBuffers {
    /// Upper triangles of ones.
    pub topk_cumsum_mats: HashMap<usize, Tensor>,
    /// Places for a shifted mask.
    pub topk_shift_bufs: HashMap<usize, Tensor>,
    /// The numbers from 1 on.
    pub topk_shift_idxs: HashMap<usize, Tensor>,
    /// Large negative numbers.
    pub topk_neg_vecs: HashMap<usize, Tensor>,
}

/// Why a tensor could not be had.
#[derive(Debug)]
pub enum BufferError {
    /// A shift needs more than one candidate.
    TooFewCandidates { k: usize },
    Failed(candle_core::Error),
}

/// The number that stands for a candidate that is ruled out.
pub const RULED_OUT: i64 = -1_000_000_000;

/// The cached tensor for `k` lives on this device.
pub open spec fn usable(cache: Map<usize, Tensor>, k: usize, device: Device) -> bool {
    cache.contains_key(k) && tensor_math::devices_agree(
        tensor_math::tensor_device(cache[k]),
        device,
    )
}

/// `after` is `before` with `made` under `k`, unless the tensor there can be used; `got` is what
/// stands there afterwards.
pub open spec fn cached(
    before: Map<usize, Tensor>,
    after: Map<usize, Tensor>,
    k: usize,
    hit: bool,
    made: Tensor,
    got: Tensor,
) -> bool {
    if hit {
        got == before[k] && after == before
    } else {
        got == made && after == before.insert(k, made)
    }
}

/// The elements of an upper triangle of ones, row after row.
pub open spec fn triangle(k: int) -> Seq<u32> {
    Seq::new(
        (k * k) as nat,
        |i: int|
            if i / k <= i % k {
                1
            } else {
                0
            },
    )
}

/// The square matrix that adds up leading elements.
pub open spec fn triangle_tensor(k: usize, device: Device) -> Tensor {
    tensor_math::single_of(
        tensor_math::tensor_reshaped(
            tensor_math::tensor_of_ids(triangle(k as int), device),
            seq![k, k],
        ),
    )
}

/// Numbers that no logit falls below.
pub open spec fn ruled_out_tensor(k: usize, device: Device) -> Tensor {
    tensor_math::single_of(tensor_math::tensor_repeated(RULED_OUT, k, device))
}

/// The tensors kept for `k` candidates on this device, as far as they can be used, have the shapes
/// and element types that they were made with, and the CPU computes with them.
pub open spec fn kept_fit(held: SamplingBuffers, k: usize, device: Device) -> bool {
    &&& usable(held.topk_cumsum_mats@, k, device) ==> {
        let mat = held.topk_cumsum_mats@[k];
        &&& tensor_math::on_cpu(mat) && tensors::tensor_dims(mat) == seq![k, k]
        &&& tensor_math::dtype_is_single(tensor_math::tensor_dtype(mat))
    }
    &&& usable(held.topk_shift_bufs@, k, device) ==> {
        let place = held.topk_shift_bufs@[k];
        &&& tensor_math::on_cpu(place) && tensors::tensor_dims(place) == seq![k]
        &&& tensor_math::tensor_contiguous(place)
    }
    &&& usable(held.topk_shift_idxs@, k, device) ==> {
        let shift = held.topk_shift_idxs@[k];
        &&& tensor_math::on_cpu(shift) && tensors::tensor_dims(shift) == seq![(k - 1) as usize]
        &&& tensor_math::tensor_contiguous(shift)
        &&& tensor_math::numbers_below(shift, k as int)
    }
    &&& usable(held.topk_neg_vecs@, k, device) ==> {
        let low = held.topk_neg_vecs@[k];
        &&& tensor_math::on_cpu(low) && tensors::tensor_dims(low) == seq![k]
        &&& tensor_math::dtype_is_single(tensor_math::tensor_dtype(low))
    }
}

/// A cache with `made` under `k`, unless the tensor there can be used.
pub open spec fn refilled(before: Map<usize, Tensor>, k: usize, hit: bool, made: Tensor) -> Map<
    usize,
    Tensor,
> {
    if hit {
        before
    } else {
        before.insert(k, made)
    }
}

/// The tensor kept for a shifted mask of `k` elements can be used.
pub open spec fn place_usable(
    held: SamplingBuffers,
    k: usize,
    device: Device,
    dtype: DType,
) -> bool {
    usable(held.topk_shift_bufs@, k, device) && tensor_math::tensor_dtype(held.topk_shift_bufs@[k])
        == dtype
}

/// `after` is `before` with all that ruling out one of `k` candidates takes on this device; `dtype`
/// is the element type of its masks.
pub open spec fn kept_for(
    before: SamplingBuffers,
    after: SamplingBuffers,
    k: usize,
    device: Device,
    dtype: DType,
) -> bool {
    &&& after.topk_cumsum_mats@ == refilled(
        before.topk_cumsum_mats@,
        k,
        usable(before.topk_cumsum_mats@, k, device),
        triangle_tensor(k, device),
    )
    &&& after.topk_shift_bufs@ == refilled(
        before.topk_shift_bufs@,
        k,
        place_usable(before, k, device, dtype),
        tensors::tensor_of_zeros(seq![k], dtype, device),
    )
    &&& after.topk_shift_idxs@ == refilled(
        before.topk_shift_idxs@,
        k,
        k <= 1 || usable(before.topk_shift_idxs@, k, device),
        tensor_math::tensor_range(1, k as u32, device),
    )
    &&& after.topk_neg_vecs@ == refilled(
        before.topk_neg_vecs@,
        k,
        usable(before.topk_neg_vecs@, k, device),
        ruled_out_tensor(k, device),
    )
}

/// `after` is `before` with some of what ruling out one of `k` candidates takes on this device.
pub open spec fn kept_some(
    before: SamplingBuffers,
    after: SamplingBuffers,
    k: usize,
    device: Device,
) -> bool {
    &&& after.topk_cumsum_mats@ == before.topk_cumsum_mats@ || after.topk_cumsum_mats@
        == before.topk_cumsum_mats@.insert(k, triangle_tensor(k, device))
    &&& after.topk_shift_bufs@ == before.topk_shift_bufs@ || exists|dtype: DType|
        after.topk_shift_bufs@ == before.topk_shift_bufs@.insert(
            k,
            #[trigger] tensors::tensor_of_zeros(seq![k], dtype, device),
        )
    &&& after.topk_shift_idxs@ == before.topk_shift_idxs@ || after.topk_shift_idxs@
        == before.topk_shift_idxs@.insert(k, tensor_math::tensor_range(1, k as u32, device))
    &&& after.topk_neg_vecs@ == before.topk_neg_vecs@ || after.topk_neg_vecs@
        == before.topk_neg_vecs@.insert(k, ruled_out_tensor(k, device))
}

fn lookup(cache: &HashMap<usize, Tensor>, k: usize, device: &Device) -> (result: Option<Tensor>)
    ensures
        match result {
            Some(tensor) => usable(cache@, k, *device) && tensor == cache@[k],
            None => !usable(cache@, k, *device),
        },
{
    match cache.get(&k) {
        Some(tensor) => {
            if tensor_math::same_device(&tensor_math::device_of(tensor), device) {
                Some(tensor.clone())
            } else {
                None
            }
        },
        None => None,
    }
}

impl SamplingBuffers {
    pub fn new() -> (result: Self)
        ensures
            result.topk_cumsum_mats@ == Map::<usize, Tensor>::empty(),
            result.topk_shift_bufs@ == Map::<usize, Tensor>::empty(),
            result.topk_shift_idxs@ == Map::<usize, Tensor>::empty(),
            result.topk_neg_vecs@ == Map::<usize, Tensor>::empty(),
    {
        SamplingBuffers {
            topk_cumsum_mats: HashMap::new(),
            topk_shift_bufs: HashMap::new(),
            topk_shift_idxs: HashMap::new(),
            topk_neg_vecs: HashMap::new(),
        }
    }

    /// `k` large negative numbers.
    pub fn get_topk_neg_vec(&mut self, k: usize, device: &Device) -> (result: TensorResult)
        requires
            tensors::shape_allocates(seq![k]),
        ensures
            *final(self) == (SamplingBuffers {
                topk_neg_vecs: final(self).topk_neg_vecs,
                ..*old(self)
            }),
            match result {
                Ok(tensor) => {
                    &&& cached(
                        old(self).topk_neg_vecs@,
                        final(self).topk_neg_vecs@,
                        k,
                        usable(old(self).topk_neg_vecs@, k, *device),
                        ruled_out_tensor(k, *device),
                        tensor,
                    )
                    &&& tensor_math::device_is_cpu(*device) && kept_fit(*old(self), k, *device) ==> {
                        &&& tensor_math::on_cpu(tensor) && tensors::tensor_dims(tensor) == seq![k]
                        &&& tensor_math::dtype_is_single(tensor_math::tensor_dtype(tensor))
                    }
                },
                Err(_) => {
                    &&& !usable(old(self).topk_neg_vecs@, k, *device)
                    &&& !tensor_math::device_is_cpu(*device)
                    &&& *final(self) == *old(self)
                },
            },
    {
        match lookup(&self.topk_neg_vecs, k, device) {
            Some(tensor) => {
                return Ok(tensor);
            },
            None => {},
        }
        let numbers = tensor_math::repeat(RULED_OUT, k, device)?;
        let tensor = tensor_math::make_single(&numbers)?;
        self.topk_neg_vecs.insert(k, tensor.clone());
        Ok(tensor)
    }

    /// The numbers from 1 up to but not including `k`.
    pub fn get_topk_shift_idx(&mut self, k: usize, device: &Device) -> (result: Result<
        Tensor,
        BufferError,
    >)
        requires
            tensors::shape_allocates(seq![(k as u32) as usize]),
        ensures
            *final(self) == (SamplingBuffers {
                topk_shift_idxs: final(self).topk_shift_idxs,
                ..*old(self)
            }),
            match result {
                Ok(tensor) => {
                    &&& usable(old(self).topk_shift_idxs@, k, *device) || k > 1
                    &&& cached(
                        old(self).topk_shift_idxs@,
                        final(self).topk_shift_idxs@,
                        k,
                        usable(old(self).topk_shift_idxs@, k, *device),
                        tensor_math::tensor_range(1, k as u32, *device),
                        tensor,
                    )
                    &&& tensor_math::device_is_cpu(*device) && kept_fit(*old(self), k, *device) && 1 < k
                        <= u32::MAX ==> {
                        &&& tensor_math::on_cpu(tensor) && tensor_math::tensor_contiguous(tensor)
                        &&& tensors::tensor_dims(tensor) == seq![(k - 1) as usize]
                        &&& tensor_math::numbers_below(tensor, k as int)
                    }
                },
                Err(BufferError::TooFewCandidates { k: given }) => {
                    &&& given == k && k <= 1
                    &&& !usable(old(self).topk_shift_idxs@, k, *device)
                    &&& *final(self) == *old(self)
                },
                Err(BufferError::Failed(_)) => {
                    &&& k > 1
                    &&& !usable(old(self).topk_shift_idxs@, k, *device)
                    &&& !tensor_math::device_is_cpu(*device)
                    &&& *final(self) == *old(self)
                },
            },
    {
        match lookup(&self.topk_shift_idxs, k, device) {
            Some(tensor) => {
                return Ok(tensor);
            },
            None => {},
        }
        if k <= 1 {
            return Err(BufferError::TooFewCandidates { k });
        }
        let end: u32 = k as u32;
        proof {
            if end >= 1 {
                tensors::lemma_span_of_fewer(seq![end as usize], seq![(end - 1) as usize]);
            }
        }
        match tensor_math::range(1, end, device) {
            Ok(tensor) => {
                self.topk_shift_idxs.insert(k, tensor.clone());
                Ok(tensor)
            },
            Err(error) => Err(BufferError::Failed(error)),
        }
    }

    /// A place for `k` elements of this type, zeros at first.
    pub fn get_topk_shift_buf(&mut self, k: usize, device: &Device, dtype: DType) -> (result:
        TensorResult)
        requires
            tensors::shape_allocates(seq![k]),
        ensures
            *final(self) == (SamplingBuffers {
                topk_shift_bufs: final(self).topk_shift_bufs,
                ..*old(self)
            }),
            ({
                let hit = usable(old(self).topk_shift_bufs@, k, *device)
                    && tensor_math::tensor_dtype(old(self).topk_shift_bufs@[k]) == dtype;
                match result {
                    Ok(tensor) => {
                        &&& cached(
                            old(self).topk_shift_bufs@,
                            final(self).topk_shift_bufs@,
                            k,
                            hit,
                            tensors::tensor_of_zeros(seq![k], dtype, *device),
                            tensor,
                        )
                        &&& tensor_math::tensor_dtype(tensor) == dtype
                        &&& tensor_math::device_is_cpu(*device) && tensor_math::dtype_computes(dtype)
                            && kept_fit(*old(self), k, *device) ==> {
                            &&& tensor_math::on_cpu(tensor)
                            &&& tensors::tensor_dims(tensor) == seq![k]
                            &&& tensor_math::tensor_contiguous(tensor)
                        }
                    },
                    Err(_) => {
                        &&& !hit
                        &&& !(tensor_math::device_is_cpu(*device) && tensor_math::dtype_computes(
                            dtype,
                        ))
                        &&& *final(self) == *old(self)
                    },
                }
            }),
    {
        match lookup(&self.topk_shift_bufs, k, device) {
            Some(tensor) => {
                if tensor_math::same_dtype(tensor_math::dtype_of(&tensor), dtype) {
                    return Ok(tensor);
                }
            },
            None => {},
        }
        let mut dims: Vec<usize> = Vec::new();
        dims.push(k);
        assert(dims@ =~= seq![k]);
        let tensor = tensors::zeros(dims, dtype, device)?;
        self.topk_shift_bufs.insert(k, tensor.clone());
        Ok(tensor)
    }

    /// The `k` by `k` matrix that adds up leading elements: ones on and above the diagonal.
    pub fn get_topk_cumsum_mat(&mut self, k: usize, device: &Device) -> (result: TensorResult)
        requires
            tensors::shape_allocates(seq![k, k]),
        ensures
            *final(self) == (SamplingBuffers {
                topk_cumsum_mats: final(self).topk_cumsum_mats,
                ..*old(self)
            }),
            match result {
                Ok(tensor) => {
                    &&& cached(
                        old(self).topk_cumsum_mats@,
                        final(self).topk_cumsum_mats@,
                        k,
                        usable(old(self).topk_cumsum_mats@, k, *device),
                        triangle_tensor(k, *device),
                        tensor,
                    )
                    &&& tensor_math::device_is_cpu(*device) && kept_fit(*old(self), k, *device) ==> {
                        &&& tensor_math::on_cpu(tensor) && tensors::tensor_dims(tensor) == seq![k, k]
                        &&& tensor_math::dtype_is_single(tensor_math::tensor_dtype(tensor))
                    }
                },
                Err(_) => {
                    &&& !usable(old(self).topk_cumsum_mats@, k, *device)
                    &&& !tensor_math::device_is_cpu(*device)
                    &&& *final(self) == *old(self)
                },
            },
    {
        match lookup(&self.topk_cumsum_mats, k, device) {
            Some(tensor) => {
                return Ok(tensor);
            },
            None => {},
        }
        proof {
            tensors::lemma_square_allocates(k);
        }
        let data = triangle_data(k);
        let flat = tensor_math::of_ids(data, device)?;
        let mut dims: Vec<usize> = Vec::new();
        dims.push(k);
        dims.push(k);
        assert(dims@ =~= seq![k, k]);
        proof {
            lemma_square_elements(k);
            tensors::lemma_countable(k, k);
        }
        let square = tensor_math::reshape(&flat, dims)?;
        let tensor = tensor_math::make_single(&square)?;
        self.topk_cumsum_mats.insert(k, tensor.clone());
        Ok(tensor)
    }
}

proof fn lemma_square_elements(k: usize)
    requires
        k * k <= usize::MAX,
    ensures
        tensors::dims_product(seq![(k * k) as usize]) == k * k,
        tensors::dims_product(seq![k, k]) == k * k,
        triangle(k as int).len() == k * k,
{
    let flat = seq![(k * k) as usize];
    let square = seq![k, k];
    assert(k * k >= 0) by (nonlinear_arith);
    assert(flat.drop_last() =~= Seq::empty());
    assert(square.drop_last() =~= seq![k]);
    assert(square.drop_last().drop_last() =~= Seq::empty());
    assert(tensors::dims_product(Seq::<usize>::empty()) == 1);
    assert(tensors::dims_product(seq![k]) == k) by {
        assert(seq![k].drop_last() =~= Seq::empty());
    }
    assert(tensors::dims_product(flat) == 1 * (k * k));
}

/// The elements of an upper triangle of ones.
fn triangle_data(k: usize) -> (result: Vec<u32>)
    requires
        k * k <= usize::MAX,
    ensures
        result@ == triangle(k as int),
{
    let mut data: Vec<u32> = Vec::new();
    let count: usize = k * k;
    let mut i: usize = 0;
    while i < count
        invariant
            i <= count,
            count == k * k,
            data@ =~= triangle(k as int).take(i as int),
        decreases count - i,
    {
        assert(k > 0) by {
            if k == 0 {
                assert(count == 0) by (nonlinear_arith)
                    requires
                        count == k * k,
                        k == 0,
                ;
            }
        }
        data.push(
            if i / k <= i % k {
                1
            } else {
                0
            },
        );
        i = i + 1;
    }
    assert(triangle(k as int).take(i as int) =~= triangle(k as int));
    data
}

/// The matrix has a one exactly on and above its diagonal.
pub proof fn law_triangle(k: int, row: int, col: int)
    requires
        0 <= row < k,
        0 <= col < k,
    ensures
        row * k + col < triangle(k).len(),
        triangle(k)[row * k + col] == if row <= col {
            1u32
        } else {
            0
        },
{
    let i = row * k + col;
    vstd::arithmetic::div_mod::lemma_fundamental_div_mod_converse(i, k, row, col);
    assert(0 <= i < k * k) by (nonlinear_arith)
        requires
            0 <= row < k,
            0 <= col < k,
            i == row * k + col,
    ;
}

} // verus!
