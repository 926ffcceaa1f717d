//! Device tensors as the engine sees them.
//!
//! A tensor is opaque here: what is known of it is its shape, its element type,
//! its device and how it was made. The elements live on a device and can be
//! overwritten in place through any handle, so no contract speaks of them.
use crate::tensor_math;
use candle_core::{DType, Device, Tensor};
use vstd::prelude::*;

verus! {

#[verifier::external_type_specification]
#[verifier::external_body]
pub struct ExTensor(candle_core::Tensor);

#[verifier::external_type_specification]
#[verifier::external_body]
pub struct ExDevice(candle_core::Device);

#[verifier::external_type_specification]
#[verifier::external_body]
pub struct ExDType(candle_core::DType);

#[verifier::external_type_specification]
#[verifier::external_body]
pub struct ExCandleError(candle_core::Error);

/// Keys and values of every layer of a model; `None` where a layer has none yet.
pub type LayerKvCaches = Vec<Option<(Tensor, Tensor)>>;

/// What an operation that makes a tensor returns.
pub type TensorResult = Result<Tensor, candle_core::Error>;

/// The dimension exists and has the `len` indices from `start` on.
pub open spec fn part_exists(dims: Seq<usize>, dim: int, start: int, len: int) -> bool {
    dim < dims.len() && start + len <= dims[dim]
}

/// The sizes of a tensor's dimensions.
pub uninterp spec fn tensor_dims(tensor: Tensor) -> Seq<usize>;

/// Bytes that one element of a tensor takes.
pub uninterp spec fn tensor_element_bytes(tensor: Tensor) -> usize;

/// The part of a tensor that covers `len` indices of `dim` from `start` on.
pub uninterp spec fn tensor_narrowed(tensor: Tensor, dim: usize, start: usize, len: usize) -> Tensor;

/// A tensor with the same elements in row-major order.
pub uninterp spec fn tensor_packed(tensor: Tensor) -> Tensor;

/// A tensor with the same elements in row-major order and storage of its own.
pub uninterp spec fn tensor_copied(tensor: Tensor) -> Tensor;

/// A tensor of zeros.
pub uninterp spec fn tensor_of_zeros(dims: Seq<usize>, dtype: DType, device: Device) -> Tensor;

/// The tensor was made of zeros.
pub open spec fn made_of_zeros(tensor: Tensor) -> bool {
    exists|dims: Seq<usize>, dtype: DType, device: Device|
        tensor == #[trigger] tensor_of_zeros(dims, dtype, device)
}

/// A tensor after another was copied over its indices of `dim` from `offset` on.
pub uninterp spec fn tensor_overwritten(tensor: Tensor, part: Tensor, dim: usize, offset: usize) -> Tensor;

/// The tensor has an allocation of its own: it was made of zeros, and perhaps written to since.
pub open spec fn owns_storage(tensor: Tensor) -> bool {
    ||| made_of_zeros(tensor)
    ||| exists|blank: Tensor, part: Tensor, dim: usize, offset: usize|
        tensor == #[trigger] tensor_overwritten(blank, part, dim, offset) && made_of_zeros(blank)
}

/// The device is a CUDA device.
pub uninterp spec fn device_is_cuda(device: Device) -> bool;

/// The element type is BF16.
pub uninterp spec fn dtype_is_bf16(dtype: DType) -> bool;

/// `Tensor::clone`: another handle to the same tensor.
pub assume_specification[ <Tensor as Clone>::clone ](tensor: &Tensor) -> (result: Tensor)
    ensures
        result == *tensor,
;

/// `Device::clone`: another handle to the same device.
pub assume_specification[ <Device as Clone>::clone ](device: &Device) -> (result: Device)
    ensures
        result == *device,
;

/// `Device::is_cuda`: whether the device is the CUDA variant.
pub assume_specification[ Device::is_cuda ](device: &Device) -> (result: bool)
    ensures
        result == device_is_cuda(*device),
;

/// `DType`'s `==` against `DType::BF16`, which holds for that variant alone: floats that the CPU
/// computes with.
#[verifier::external_body]
pub(crate) fn is_bf16(dtype: DType) -> (result: bool)
    ensures
        result == dtype_is_bf16(dtype),
        result ==> tensor_math::dtype_is_float(dtype) && tensor_math::dtype_computes(dtype),
{
    dtype == DType::BF16
}

/// `Tensor::dims`: the size of each dimension, fixed when the tensor is made.
#[verifier::external_body]
pub(crate) fn dims(tensor: &Tensor) -> (result: Vec<usize>)
    ensures
        result@ == tensor_dims(*tensor),
{
    tensor.dims().to_vec()
}

/// `Tensor::dim`: the size of one dimension. It fails exactly where there is no such dimension.
#[verifier::external_body]
pub(crate) fn dim(tensor: &Tensor, index: usize) -> (result: Result<usize, candle_core::Error>)
    ensures
        match result {
            Ok(size) => part_exists(tensor_dims(*tensor), index as int, 0, 0) && size
                == tensor_dims(*tensor)[index as int],
            Err(_) => !part_exists(tensor_dims(*tensor), index as int, 0, 0),
        },
{
    tensor.dim(index)
}

/// `DType::size_in_bytes` of the tensor's element type, fixed when the tensor is made.
#[verifier::external_body]
pub(crate) fn element_bytes(tensor: &Tensor) -> (result: usize)
    ensures
        result == tensor_element_bytes(*tensor),
{
    tensor.dtype().size_in_bytes()
}

/// `Tensor::narrow`: a view of part of one dimension. It succeeds exactly when the dimension
/// exists and the part lies within it; every other dimension keeps its size. Device and element
/// type stay, and so does the order of elements in a part of the first dimension. A part that ends
/// behind every machine number is left out.
#[verifier::external_body]
pub(crate) fn narrow(tensor: &Tensor, dim: usize, start: usize, len: usize) -> (result: TensorResult)
    requires
        start + len <= usize::MAX,
    ensures
        match result {
            Ok(part) => {
                &&& part_exists(tensor_dims(*tensor), dim as int, start as int, len as int)
                &&& part == tensor_narrowed(*tensor, dim, start, len)
                &&& tensor_dims(part) == tensor_dims(*tensor).update(dim as int, len)
                &&& tensor_element_bytes(part) == tensor_element_bytes(*tensor)
                &&& tensor_math::tensor_device(part) == tensor_math::tensor_device(*tensor)
                &&& tensor_math::tensor_dtype(part) == tensor_math::tensor_dtype(*tensor)
                &&& dim == 0 && tensor_math::tensor_contiguous(*tensor)
                    ==> tensor_math::tensor_contiguous(part)
            },
            Err(_) => !part_exists(tensor_dims(*tensor), dim as int, start as int, len as int),
        },
{
    tensor.narrow(dim, start, len)
}

/// One index of the first dimension, as [`narrow`] gives it. The last machine number is no index.
pub(crate) fn narrow_one(tensor: &Tensor, index: usize) -> (result: TensorResult)
    ensures
        match result {
            Ok(part) => {
                &&& part_exists(tensor_dims(*tensor), 0, index as int, 1)
                &&& part == tensor_narrowed(*tensor, 0, index, 1)
                &&& tensor_dims(part) == tensor_dims(*tensor).update(0, 1)
                &&& tensor_math::tensor_device(part) == tensor_math::tensor_device(*tensor)
                &&& tensor_math::tensor_dtype(part) == tensor_math::tensor_dtype(*tensor)
                &&& tensor_math::tensor_contiguous(*tensor) ==> tensor_math::tensor_contiguous(part)
            },
            Err(_) => !part_exists(tensor_dims(*tensor), 0, index as int, 1),
        },
{
    if index < usize::MAX {
        narrow(tensor, 0, index, 1)
    } else {
        let rank: usize = dims(tensor).len();
        let missing = dim(tensor, rank)?;
        assert(false);
        narrow(tensor, 0, 0, missing)
    }
}

/// `Tensor::contiguous`: the same tensor where it is in row-major order already, else a copy
/// that is. The copy can fail on a device, not on the CPU. A view of more elements than can be
/// allocated is left out.
#[verifier::external_body]
pub(crate) fn contiguous(tensor: &Tensor) -> (result: TensorResult)
    requires
        sized(*tensor),
    ensures
        match result {
            Ok(packed) => {
                &&& packed == tensor_packed(*tensor)
                &&& tensor_dims(packed) == tensor_dims(*tensor)
                &&& tensor_element_bytes(packed) == tensor_element_bytes(*tensor)
            },
            Err(_) => !tensor_math::on_cpu(*tensor),
        },
{
    tensor.contiguous()
}

/// `Tensor::force_contiguous`: always a copy, in row-major order; device and element type stay. It
/// can fail on a device, not on the CPU. A tensor without elements, which may begin outside its
/// storage, and a view of more elements than can be allocated are left out.
#[verifier::external_body]
pub(crate) fn force_contiguous(tensor: &Tensor) -> (result: TensorResult)
    requires
        has_elements(*tensor),
        sized(*tensor),
    ensures
        match result {
            Ok(copy) => {
                &&& copy == tensor_copied(*tensor)
                &&& tensor_dims(copy) == tensor_dims(*tensor)
                &&& tensor_element_bytes(copy) == tensor_element_bytes(*tensor)
                &&& tensor_math::tensor_device(copy) == tensor_math::tensor_device(*tensor)
                &&& tensor_math::tensor_dtype(copy) == tensor_math::tensor_dtype(*tensor)
            },
            Err(_) => !tensor_math::on_cpu(*tensor),
        },
{
    tensor.force_contiguous()
}

/// `Tensor::zeros`: a new tensor of this shape, element type and device. The allocation can
/// fail on a device, not on the CPU; a shape that no allocation could hold is left out.
#[verifier::external_body]
pub(crate) fn zeros(dims: Vec<usize>, dtype: DType, device: &Device) -> (result: TensorResult)
    requires
        shape_allocates(dims@),
    ensures
        match result {
            Ok(tensor) => {
                &&& tensor == tensor_of_zeros(dims@, dtype, *device)
                &&& tensor_dims(tensor) == dims@
                &&& tensor_math::tensor_dtype(tensor) == dtype
                &&& tensor_math::tensor_contiguous(tensor)
                &&& tensor_math::device_is_cpu(*device) && tensor_math::dtype_computes(dtype)
                    ==> tensor_math::on_cpu(tensor)
            },
            Err(_) => !(tensor_math::device_is_cpu(*device) && tensor_math::dtype_computes(dtype)),
        },
{
    Tensor::zeros(dims, dtype, device)
}

/// The CPU copies `part` over `tensor`: both stand in order, in allocations that are known to be
/// two, with elements of one type, and the part lies within.
pub open spec fn overwrites_on_cpu(tensor: Tensor, part: Tensor, dim: usize, offset: usize) -> bool {
    let dims = tensor_dims(tensor);
    let size = tensor_dims(part);
    &&& tensor_math::on_cpu(tensor) && tensor_math::on_cpu(part)
    &&& tensor_math::tensor_contiguous(tensor) && tensor_math::tensor_contiguous(part)
    &&& tensor_math::tensor_dtype(tensor) == tensor_math::tensor_dtype(part)
    &&& owns_storage(part) && size != dims
    &&& dim < size.len() && part_exists(dims, dim as int, offset as int, size[dim as int] as int)
    &&& size.update(dim as int, dims[dim as int]) == dims
}

/// `Tensor::slice_set`: copies `part` over `tensor` in place, at `offset` of `dim`, and leaves
/// shape, element type and device alone. It fails where shapes, element types or devices do not
/// match, elements are not in order or both share their storage, and can fail on a device. Left out
/// are a part without elements, which may begin outside its storage, what no machine could count,
/// and a tensor that was not made of zeros: tensors of indices keep what they were made of.
#[verifier::external_body]
pub(crate) fn slice_set(tensor: Tensor, part: &Tensor, dim: usize, offset: usize) -> (result: TensorResult)
    requires
        dim < tensor_dims(*part).len() ==> offset + tensor_dims(*part)[dim as int] <= usize::MAX,
        shape_allocates(tensor_dims(tensor)),
        shape_allocates(tensor_dims(*part)),
        has_elements(*part),
        made_of_zeros(tensor),
    ensures
        match result {
            Ok(written) => {
                &&& written == tensor_overwritten(tensor, *part, dim, offset)
                &&& tensor_dims(written) == tensor_dims(tensor)
                &&& tensor_math::tensor_dtype(written) == tensor_math::tensor_dtype(tensor)
                &&& tensor_math::tensor_device(written) == tensor_math::tensor_device(tensor)
                &&& tensor_math::tensor_contiguous(written) == tensor_math::tensor_contiguous(
                    tensor,
                )
            },
            Err(_) => !overwrites_on_cpu(tensor, *part, dim, offset),
        },
{
    tensor.slice_set(part, dim, offset)?;
    Ok(tensor)
}

/// Elements of a shape.
pub open spec fn dims_product(dims: Seq<usize>) -> int
    decreases dims.len(),
{
    if dims.len() == 0 {
        1
    } else {
        dims_product(dims.drop_last()) * dims.last()
    }
}

/// The largest number of elements that some of these dimensions have, side by side or not: those
/// without indices are passed over.
pub open spec fn dims_span(dims: Seq<usize>) -> int
    decreases dims.len(),
{
    if dims.len() == 0 {
        1
    } else if dims.last() == 0 {
        dims_span(dims.drop_last())
    } else {
        dims_span(dims.drop_last()) * dims.last()
    }
}

/// A tensor of this shape can be allocated, whatever its element type, and a machine counts the
/// elements before and after each dimension.
pub open spec fn shape_allocates(dims: Seq<usize>) -> bool {
    dims_span(dims) * 8 <= isize::MAX
}

/// As many elements as the tensor has can be allocated. A view can repeat its elements beyond that.
pub open spec fn sized(tensor: Tensor) -> bool {
    shape_allocates(tensor_dims(tensor))
}

/// A machine can count the elements of this shape, and of any part of its dimensions.
pub open spec fn countable(dims: Seq<usize>) -> bool {
    dims_span(dims) <= usize::MAX
}

proof fn lemma_span_positive(dims: Seq<usize>)
    ensures
        dims_span(dims) >= 1,
    decreases dims.len(),
{
    if dims.len() > 0 {
        lemma_span_positive(dims.drop_last());
        if dims.last() > 0 {
            assert(dims_span(dims.drop_last()) * dims.last() >= 1) by (nonlinear_arith)
                requires
                    dims_span(dims.drop_last()) >= 1,
                    dims.last() >= 1,
            ;
        }
    }
}

/// One dimension can be counted, and so can two whose product is a machine number. Few indices can
/// be allocated.
pub(crate) proof fn lemma_countable(a: usize, b: usize)
    ensures
        countable(seq![a]),
        a * b <= usize::MAX ==> countable(seq![a, b]),
        a <= 64 ==> shape_allocates(seq![a]),
        a <= 64 && b <= 64 ==> shape_allocates(seq![a, b]),
{
    let nothing = Seq::<usize>::empty();
    let line = seq![a];
    let square = seq![a, b];
    assert(dims_span(nothing) == 1);
    assert(line.drop_last() =~= nothing);
    assert(dims_span(line) == if a == 0 {
        1
    } else {
        1 * a
    });
    assert(square.drop_last() =~= line);
    assert(dims_span(square) == if b == 0 {
        dims_span(line)
    } else {
        dims_span(line) * b
    });
    if a <= 64 && b <= 64 {
        assert(dims_span(line) * b <= 64 * 64) by (nonlinear_arith)
            requires
                0 <= dims_span(line) <= 64,
                0 <= b <= 64,
        ;
    }
}

/// Whether a tensor of this shape can be allocated.
pub fn shape_fits(dims: &[usize]) -> (result: bool)
    ensures
        result == shape_allocates(dims@),
{
    let limit: usize = (isize::MAX as usize) / 8;
    let mut span: usize = 1;
    let mut i: usize = 0;
    assert(dims@.take(0) =~= Seq::<usize>::empty());
    while i < dims.len()
        invariant
            i <= dims@.len(),
            limit == isize::MAX / 8,
            span == dims_span(dims@.take(i as int)),
            span <= limit,
        decreases dims@.len() - i,
    {
        assert(dims@.take(i + 1).drop_last() =~= dims@.take(i as int));
        let size: usize = if dims[i] == 0 {
            1
        } else {
            dims[i]
        };
        let fits = match span.checked_mul(size) {
            Some(next) => {
                if next <= limit {
                    span = next;
                    true
                } else {
                    false
                }
            },
            None => false,
        };
        if !fits {
            proof {
                assert(dims_span(dims@.take(i + 1)) > limit);
                lemma_span_grows(dims@, i + 1);
            }
            return false;
        }
        i = i + 1;
    }
    assert(dims@.take(i as int) =~= dims@);
    true
}

/// More dimensions never span less.
proof fn lemma_span_grows(dims: Seq<usize>, few: int)
    requires
        0 <= few <= dims.len(),
    ensures
        dims_span(dims.take(few)) <= dims_span(dims),
    decreases dims.len(),
{
    if few == dims.len() {
        assert(dims.take(few) =~= dims);
    } else {
        lemma_span_grows(dims.drop_last(), few);
        assert(dims.drop_last().take(few) =~= dims.take(few));
        lemma_span_positive(dims.drop_last());
        if dims.last() > 0 {
            assert(dims_span(dims.drop_last()) <= dims_span(dims.drop_last()) * dims.last())
                by (nonlinear_arith)
                requires
                    dims_span(dims.drop_last()) >= 1,
                    dims.last() >= 1,
            ;
        }
    }
}

/// Fewer indices never span more.
pub(crate) proof fn lemma_span_of_fewer(dims: Seq<usize>, fewer: Seq<usize>)
    requires
        fewer.len() == dims.len(),
        forall|i: int| 0 <= i < dims.len() ==> #[trigger] fewer[i] <= dims[i],
    ensures
        dims_span(fewer) <= dims_span(dims),
    decreases dims.len(),
{
    if dims.len() > 0 {
        let inner = dims.drop_last();
        let less = fewer.drop_last();
        assert forall|i: int| 0 <= i < inner.len() implies #[trigger] less[i] <= inner[i] by {
            assert(fewer[i] <= dims[i]);
        }
        lemma_span_of_fewer(inner, less);
        lemma_span_positive(less);
        assert(fewer[dims.len() - 1] <= dims[dims.len() - 1]);
        if dims.last() > 0 {
            let few = if fewer.last() == 0 {
                1
            } else {
                fewer.last() as int
            };
            assert(dims_span(less) * few <= dims_span(inner) * dims.last()) by (nonlinear_arith)
                requires
                    0 <= dims_span(less) <= dims_span(inner),
                    1 <= few <= dims.last(),
            ;
        }
    }
}

/// Without one of its dimensions a shape never spans more.
pub(crate) proof fn lemma_span_without(dims: Seq<usize>, at: int)
    requires
        0 <= at < dims.len(),
    ensures
        dims_span(dims.remove(at)) <= dims_span(dims),
    decreases dims.len(),
{
    let inner = dims.drop_last();
    lemma_span_positive(inner);
    if at == dims.len() - 1 {
        assert(dims.remove(at) =~= inner);
        if dims.last() > 0 {
            assert(dims_span(inner) <= dims_span(inner) * dims.last()) by (nonlinear_arith)
                requires
                    dims_span(inner) >= 1,
                    dims.last() >= 1,
            ;
        }
    } else {
        lemma_span_without(inner, at);
        assert(dims.remove(at).drop_last() =~= inner.remove(at));
        assert(dims.remove(at).last() == dims.last());
        if dims.last() > 0 {
            assert(dims_span(inner.remove(at)) * dims.last() <= dims_span(inner) * dims.last())
                by (nonlinear_arith)
                requires
                    dims_span(inner.remove(at)) <= dims_span(inner),
                    dims.last() >= 1,
            ;
        }
    }
}

/// What a square can be allocated for: its lines, all its elements in one line, and a single one.
pub(crate) proof fn lemma_square_allocates(k: usize)
    requires
        shape_allocates(seq![k, k]),
    ensures
        shape_allocates(seq![k]),
        shape_allocates(seq![1usize, k]),
        k * k <= usize::MAX,
        k * k <= usize::MAX ==> shape_allocates(seq![(k * k) as usize]),
{
    let nothing = Seq::<usize>::empty();
    let square = seq![k, k];
    let line = seq![k];
    let one = seq![1usize];
    let flat = seq![(k * k) as usize];
    assert(dims_span(nothing) == 1);
    assert(line.drop_last() =~= nothing);
    assert(one.drop_last() =~= nothing);
    assert(flat.drop_last() =~= nothing);
    assert(square.drop_last() =~= line);
    assert(seq![1usize, k].drop_last() =~= one);
    assert(dims_span(one) == 1);
    assert(k * k >= k && k * k >= 0) by (nonlinear_arith)
        requires
            k >= 0,
    ;
    if k > 0 {
        assert(dims_span(line) == k);
        assert(dims_span(square) == k * k);
        assert(dims_span(seq![1usize, k]) == 1 * k);
    }
}

/// A shape has elements where every dimension has indices.
pub(crate) proof fn lemma_positive_dims(dims: Seq<usize>)
    requires
        forall|i: int| 0 <= i < dims.len() ==> #[trigger] dims[i] > 0,
    ensures
        dims_product(dims) > 0,
    decreases dims.len(),
{
    if dims.len() > 0 {
        let inner = dims.drop_last();
        assert forall|i: int| 0 <= i < inner.len() implies #[trigger] inner[i] > 0 by {
            assert(inner[i] == dims[i]);
        }
        lemma_positive_dims(inner);
        assert(dims_product(inner) * dims.last() > 0) by (nonlinear_arith)
            requires
                dims_product(inner) > 0,
                dims.last() > 0,
        ;
    }
}

/// The last dimension of a shape with elements has indices.
pub(crate) proof fn lemma_last_dim(dims: Seq<usize>)
    requires
        dims.len() > 0,
        dims_product(dims) > 0,
    ensures
        dims.last() > 0,
        dims_product(dims.drop_last()) > 0,
{
    let inner = dims_product(dims.drop_last());
    lemma_dims_product_nonnegative(dims.drop_last());
    if dims.last() == 0 {
        assert(inner * 0 == 0) by (nonlinear_arith);
    }
    if inner == 0 {
        assert(0 * dims.last() == 0) by (nonlinear_arith);
    }
}

/// The tensor has elements.
pub open spec fn has_elements(tensor: Tensor) -> bool {
    dims_product(tensor_dims(tensor)) > 0
}

/// The first dimension without indices.
fn empty_dim(tensor: &Tensor) -> (result: Option<usize>)
    ensures
        match result {
            Some(i) => {
                &&& !has_elements(*tensor)
                &&& i < tensor_dims(*tensor).len()
                &&& tensor_dims(*tensor)[i as int] == 0
            },
            None => has_elements(*tensor),
        },
{
    let dims = dims(tensor);
    let mut i: usize = 0;
    while i < dims.len()
        invariant
            i <= dims@.len(),
            dims@ == tensor_dims(*tensor),
            forall|j: int| 0 <= j < i ==> #[trigger] dims@[j] > 0,
        decreases dims@.len() - i,
    {
        if dims[i] == 0 {
            proof {
                lemma_zero_dim(dims@, i as int);
            }
            return Some(i);
        }
        i = i + 1;
    }
    proof {
        lemma_positive_dims(dims@);
    }
    None
}

/// Whether the tensor has elements.
pub fn holds_elements(tensor: &Tensor) -> (result: bool)
    ensures
        result == has_elements(*tensor),
{
    empty_dim(tensor).is_none()
}

/// Fails where the tensor has no elements: a dimension without indices has no first one.
pub(crate) fn demand_elements(tensor: &Tensor) -> (result: Result<(), candle_core::Error>)
    ensures
        result is Ok <==> has_elements(*tensor),
{
    match empty_dim(tensor) {
        Some(i) => {
            narrow(tensor, i, 0, 1)?;
            Ok(())
        },
        None => Ok(()),
    }
}

/// Whether as many elements as the tensor has can be allocated.
pub fn is_sized(tensor: &Tensor) -> (result: bool)
    ensures
        result == sized(*tensor),
{
    let dims = dims(tensor);
    shape_fits(dims.as_slice())
}

/// Fails where the tensor has more elements than can be allocated, as for a dimension that is not
/// there.
pub(crate) fn demand_size(tensor: &Tensor) -> (result: Result<(), candle_core::Error>)
    ensures
        result is Ok <==> sized(*tensor),
{
    if !is_sized(tensor) {
        let rank: usize = dims(tensor).len();
        dim(tensor, rank)?;
    }
    Ok(())
}

/// Fails where the tensor has another shape, as for a dimension that is not there.
pub(crate) fn demand_dims(tensor: &Tensor, wanted: &Vec<usize>) -> (result: Result<
    (),
    candle_core::Error,
>)
    ensures
        result is Ok <==> tensor_dims(*tensor) == wanted@,
{
    let dims = dims(tensor);
    let mut same = dims.len() == wanted.len();
    let mut i: usize = 0;
    while same && i < dims.len()
        invariant
            i <= dims@.len(),
            same ==> dims@.len() == wanted@.len() && forall|j: int|
                0 <= j < i ==> #[trigger] dims@[j] == wanted@[j],
            !same ==> dims@ != wanted@,
        decreases dims@.len() - i,
    {
        if dims[i] != wanted[i] {
            assert(dims@[i as int] != wanted@[i as int]);
            same = false;
        }
        i = i + 1;
    }
    if same {
        assert(dims@ =~= wanted@);
    } else {
        dim(tensor, dims.len())?;
    }
    Ok(())
}

/// A copy of a tensor, in storage of its own. Zeros like a tensor without elements are one, too.
pub open spec fn copy_of(tensor: Tensor) -> Tensor {
    if has_elements(tensor) {
        tensor_copied(tensor)
    } else {
        tensor_math::tensor_zeros_like(tensor)
    }
}

/// Copies a tensor, in row-major order. A device can fail at it, and more elements than can be
/// allocated are not copied; else the CPU cannot fail.
pub(crate) fn copy(tensor: &Tensor) -> (result: TensorResult)
    ensures
        match result {
            Ok(copy) => {
                &&& copy == copy_of(*tensor)
                &&& tensor_dims(copy) == tensor_dims(*tensor)
                &&& tensor_element_bytes(copy) == tensor_element_bytes(*tensor)
            },
            Err(_) => !tensor_math::on_cpu(*tensor),
        },
{
    demand_size(tensor)?;
    if holds_elements(tensor) {
        force_contiguous(tensor)
    } else {
        tensor_math::zeros_like(tensor)
    }
}

/// Bytes of a tensor's elements.
pub open spec fn tensor_bytes(tensor: Tensor) -> int {
    dims_product(tensor_dims(tensor)) * tensor_element_bytes(tensor)
}

/// Bytes of the first `count` layers.
pub open spec fn caches_bytes(caches: Seq<Option<(Tensor, Tensor)>>, count: int) -> int
    decreases count,
{
    if count <= 0 {
        0
    } else {
        caches_bytes(caches, count - 1) + match caches[count - 1] {
            Some((key, value)) => tensor_bytes(key) + tensor_bytes(value),
            None => 0,
        }
    }
}

/// The value, or the largest `u64` where it exceeds that.
pub open spec fn capped(value: int) -> int {
    if value <= u64::MAX {
        value
    } else {
        u64::MAX as int
    }
}

/// Elements are never fewer than none.
pub(crate) proof fn lemma_dims_product_nonnegative(dims: Seq<usize>)
    ensures
        dims_product(dims) >= 0,
    decreases dims.len(),
{
    if dims.len() > 0 {
        lemma_dims_product_nonnegative(dims.drop_last());
        assert(dims_product(dims.drop_last()) * dims.last() >= 0) by (nonlinear_arith)
            requires
                dims_product(dims.drop_last()) >= 0,
                dims.last() >= 0,
        ;
    }
}

/// Bytes are never negative.
pub proof fn lemma_caches_bytes_nonnegative(caches: Seq<Option<(Tensor, Tensor)>>, count: int)
    requires
        count <= caches.len(),
    ensures
        caches_bytes(caches, count) >= 0,
    decreases count,
{
    if count > 0 {
        lemma_caches_bytes_nonnegative(caches, count - 1);
        if let Some((key, value)) = caches[count - 1] {
            lemma_tensor_bytes_nonnegative(key);
            lemma_tensor_bytes_nonnegative(value);
        }
    }
}

proof fn lemma_tensor_bytes_nonnegative(tensor: Tensor)
    ensures
        tensor_bytes(tensor) >= 0,
{
    lemma_dims_product_nonnegative(tensor_dims(tensor));
    assert(tensor_bytes(tensor) >= 0) by (nonlinear_arith)
        requires
            tensor_bytes(tensor) == dims_product(tensor_dims(tensor)) * tensor_element_bytes(
                tensor,
            ),
            dims_product(tensor_dims(tensor)) >= 0,
            tensor_element_bytes(tensor) >= 0,
    ;
}

/// Capping a factor does not change a capped product.
pub proof fn lemma_capped_factor(a: int, b: int)
    requires
        a >= 0,
        b >= 0,
    ensures
        capped(capped(a) * b) == capped(a * b),
        a * b >= 0,
{
    assert(a * b >= 0) by (nonlinear_arith)
        requires
            a >= 0,
            b >= 0,
    ;
    if a > u64::MAX {
        if b == 0 {
            assert(a * b == 0 && u64::MAX * b == 0) by (nonlinear_arith)
                requires
                    b == 0,
            ;
        } else {
            assert(a * b >= a && u64::MAX * b >= u64::MAX) by (nonlinear_arith)
                requires
                    b >= 1,
                    a >= 0,
            ;
        }
    }
}

/// `a * b`, or the largest `u64`.
pub(crate) fn capped_mul(a: u64, b: u64) -> (result: u64)
    ensures
        result == capped(a * b),
{
    match a.checked_mul(b) {
        Some(product) => product,
        None => u64::MAX,
    }
}

/// Bytes of a tensor, at most the largest `u64`.
fn byte_len(tensor: &Tensor) -> (result: u64)
    ensures
        result == capped(tensor_bytes(*tensor)),
{
    let dims = dims(tensor);
    let element: u64 = element_bytes(tensor) as u64;
    let mut zero: bool = element == 0;
    let mut i: usize = 0;
    while i < dims.len()
        invariant
            i <= dims@.len(),
            zero ==> element == 0 || exists|j: int| 0 <= j < i && #[trigger] dims@[j] == 0,
            !zero ==> element != 0 && forall|j: int| 0 <= j < i ==> #[trigger] dims@[j] != 0,
        decreases dims@.len() - i,
    {
        if dims[i] == 0 {
            zero = true;
        }
        i = i + 1;
    }
    if zero {
        proof {
            if element == 0 {
                assert(dims_product(dims@) * 0 == 0) by (nonlinear_arith);
            } else {
                let j = choose|j: int| 0 <= j < dims@.len() && #[trigger] dims@[j] == 0;
                lemma_zero_dim(dims@, j);
                assert(0 * element == 0) by (nonlinear_arith);
                assert(tensor_bytes(*tensor) == 0);
            }
        }
        return 0;
    }
    let mut product: u64 = 1;
    let mut k: usize = 0;
    while k < dims.len()
        invariant
            k <= dims@.len(),
            forall|j: int| 0 <= j < dims@.len() ==> #[trigger] dims@[j] != 0,
            product == capped(dims_product(dims@.take(k as int))),
            product >= 1,
        decreases dims@.len() - k,
    {
        let ghost head = dims@.take(k as int);
        let ghost next = dims@.take(k + 1);
        assert(next.drop_last() =~= head);
        let ghost exact = dims_product(head);
        proof {
            let d = dims@[k as int] as int;
            lemma_dims_product_nonnegative(head);
            assert(exact * d >= exact && exact * d >= d * 1) by (nonlinear_arith)
                requires
                    exact >= 1,
                    d >= 1,
            ;
            if exact > u64::MAX {
                assert(u64::MAX * d >= u64::MAX) by (nonlinear_arith)
                    requires
                        d >= 1,
                ;
            }
        }
        product = capped_mul(product, dims[k] as u64);
        k = k + 1;
    }
    assert(dims@.take(k as int) =~= dims@);
    proof {
        let exact = dims_product(dims@);
        lemma_dims_product_nonnegative(dims@);
        assert(exact * element >= exact) by (nonlinear_arith)
            requires
                exact >= 0,
                element >= 1,
        ;
        if exact > u64::MAX {
            assert(u64::MAX * element >= u64::MAX) by (nonlinear_arith)
                requires
                    element >= 1,
            ;
        }
    }
    capped_mul(product, element)
}

proof fn lemma_zero_dim(dims: Seq<usize>, j: int)
    requires
        0 <= j < dims.len(),
        dims[j] == 0,
    ensures
        dims_product(dims) == 0,
    decreases dims.len(),
{
    if j == dims.len() - 1 {
        assert(dims_product(dims.drop_last()) * 0 == 0) by (nonlinear_arith);
    } else {
        lemma_zero_dim(dims.drop_last(), j);
        assert(0 * dims.last() == 0) by (nonlinear_arith);
    }
}

/// Bytes that the key and value tensors of all layers hold, at most the largest `u64`.
pub fn kv_cache_bytes(caches: &[Option<(Tensor, Tensor)>]) -> (result: u64)
    ensures
        result == capped(caches_bytes(caches@, caches@.len() as int)),
{
    let mut total: u64 = 0;
    let mut i: usize = 0;
    while i < caches.len()
        invariant
            i <= caches@.len(),
            total == capped(caches_bytes(caches@, i as int)),
        decreases caches@.len() - i,
    {
        proof {
            lemma_caches_bytes_nonnegative(caches@, i as int);
        }
        match &caches[i] {
            Some((key, value)) => {
                proof {
                    lemma_tensor_bytes_nonnegative(*key);
                    lemma_tensor_bytes_nonnegative(*value);
                }
                total = total.saturating_add(byte_len(key)).saturating_add(byte_len(value));
            },
            None => {},
        }
        i = i + 1;
    }
    total
}

/// Handles to the same caches.
pub fn share_caches(caches: &[Option<(Tensor, Tensor)>]) -> (result: LayerKvCaches)
    ensures
        result@ == caches@,
{
    let mut result: LayerKvCaches = Vec::with_capacity(caches.len());
    let mut i: usize = 0;
    while i < caches.len()
        invariant
            i <= caches@.len(),
            result@ =~= caches@.take(i as int),
        decreases caches@.len() - i,
    {
        match &caches[i] {
            Some((key, value)) => {
                result.push(Some((key.clone(), value.clone())));
            },
            None => {
                result.push(None);
            },
        }
        i = i + 1;
    }
    assert(caches@.take(i as int) =~= caches@);
    result
}

/// Caches take up what their keys and values take up: the elements of both times the size of one,
/// layer by layer, and nothing for a layer without any.
pub proof fn law_layers_add_up(
    caches: Seq<Option<(Tensor, Tensor)>>,
    layer: Option<(Tensor, Tensor)>,
)
    ensures
        caches_bytes(Seq::empty(), 0) == 0,
        layer is None ==> caches_bytes(
            caches.push(layer),
            caches.len() as int + 1,
        ) == caches_bytes(
            caches,
            caches.len() as int,
        ),
        layer matches Some((key, value)) ==> caches_bytes(
            caches.push(layer),
            caches.len() as int + 1,
        )
            == caches_bytes(caches, caches.len() as int) + dims_product(tensor_dims(key))
            * tensor_element_bytes(key) + dims_product(tensor_dims(value)) * tensor_element_bytes(
            value,
        ),
{
    lemma_bytes_of_prefix(caches, layer, caches.len() as int);
}

proof fn lemma_bytes_of_prefix(
    caches: Seq<Option<(Tensor, Tensor)>>,
    layer: Option<(Tensor, Tensor)>,
    count: int,
)
    requires
        count <= caches.len(),
    ensures
        caches_bytes(caches.push(layer), count) == caches_bytes(caches, count),
    decreases count,
{
    if count > 0 {
        lemma_bytes_of_prefix(caches, layer, count - 1);
        assert(caches.push(layer)[count - 1] == caches[count - 1]);
    }
}

} // verus!
