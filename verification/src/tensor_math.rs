//! Tensor operations of the sampling path.
//!
//! As in [`crate::tensors`], a tensor is known by its shape and by how it was made. Elements are
//! read out only where a token is chosen. They may be written in place, so that a reading is
//! known as one that the tensor gave, not as the only one. A view can repeat its elements beyond
//! what could ever be allocated: whatever goes through the elements takes tensors that are
//! [`tensors::sized`] only.
use crate::tensors::{self, TensorResult};
use candle_core::{DType, Device, Tensor, D};
use vstd::prelude::*;

verus! {

/// The device that a tensor lives on.
pub uninterp spec fn tensor_device(tensor: Tensor) -> Device;

/// The type of a tensor's elements.
pub uninterp spec fn tensor_dtype(tensor: Tensor) -> DType;

/// The device is the CPU, whose tensors are in host memory.
pub uninterp spec fn device_is_cpu(device: Device) -> bool;

/// The CPU computes with elements of this type: any but the packed F6E2M3, F6E3M2, F4 and F8E8M0.
pub uninterp spec fn dtype_computes(dtype: DType) -> bool;

/// The element type is one of floats.
pub uninterp spec fn dtype_is_float(dtype: DType) -> bool;

/// The element type is U32.
pub uninterp spec fn dtype_is_number(dtype: DType) -> bool;

/// The element type is U8.
pub uninterp spec fn dtype_is_byte(dtype: DType) -> bool;

/// The elements stand in row-major order, without gaps.
pub uninterp spec fn tensor_contiguous(tensor: Tensor) -> bool;

/// The tensor is in host memory, the CPU computes with its elements, and as many as it has can be
/// allocated. No device can fail at it then, and the host's memory is taken to suffice.
pub open spec fn on_cpu(tensor: Tensor) -> bool {
    &&& device_is_cpu(tensor_device(tensor)) && dtype_computes(tensor_dtype(tensor))
    &&& tensors::sized(tensor)
}

/// The element type is F32.
pub uninterp spec fn dtype_is_single(dtype: DType) -> bool;

/// The element type is F32, and no other type is.
pub open spec fn the_single(dtype: DType) -> bool {
    &&& dtype_is_single(dtype)
    &&& dtype_is_float(dtype)
    &&& dtype_computes(dtype)
    &&& !dtype_is_number(dtype)
    &&& forall|other: DType| #[trigger] dtype_is_single(other) ==> other == dtype
}

/// The tensor was made of numbers below `limit`: of given ones, of a range, or of where the largest
/// elements of so many are. No tensor of such numbers is ever written to.
pub open spec fn numbers_below(indices: Tensor, limit: int) -> bool {
    ||| exists|ids: Seq<u32>, device: Device|
        {
            &&& indices == #[trigger] tensor_of_ids(ids, device)
            &&& forall|i: int| 0 <= i < ids.len() ==> #[trigger] ids[i] < limit
        }
    ||| exists|start: u32, end: u32, device: Device|
        indices == #[trigger] tensor_range(start, end, device) && end <= limit
    ||| exists|source: Tensor, dims: Seq<usize>|
        {
            &&& indices == #[trigger] tensor_reshaped(tensor_argmax(source), dims)
            &&& tensors::tensor_dims(source).len() > 0
            &&& tensors::tensor_dims(source).last() <= limit
        }
}

/// A tensor without dimension `dim`, where that has one index only.
pub uninterp spec fn tensor_squeezed(tensor: Tensor, dim: usize) -> Tensor;

/// A tensor with its elements converted to F32.
pub uninterp spec fn tensor_as_single(tensor: Tensor) -> Tensor;

/// A tensor with its elements converted to a type.
pub uninterp spec fn tensor_converted(tensor: Tensor, dtype: DType) -> Tensor;

/// A tensor with its elements converted to F64.
pub uninterp spec fn tensor_as_double(tensor: Tensor) -> Tensor;

/// Where the largest elements along the last dimension are.
pub uninterp spec fn tensor_argmax(tensor: Tensor) -> Tensor;

/// The elements of a tensor at these indices of its last dimension.
pub uninterp spec fn tensor_gathered(tensor: Tensor, indices: Tensor) -> Tensor;

/// A tensor after elements were written to these indices of the last dimension of `view`, which
/// is the tensor itself or a part of it.
pub uninterp spec fn tensor_scattered(
    tensor: Tensor,
    view: Tensor,
    indices: Tensor,
    elements: Tensor,
) -> Tensor;

/// A tensor of one dimension with these numbers.
pub uninterp spec fn tensor_of_ids(ids: Seq<u32>, device: Device) -> Tensor;

/// A tensor of one F32 element, given by its bits.
pub uninterp spec fn tensor_of_single(bits: u32, device: Device) -> Tensor;

/// A tensor of one F64 element and no dimension, given by its bits.
pub uninterp spec fn tensor_of_double(bits: u64, device: Device) -> Tensor;

/// A tensor of zeros like another.
pub uninterp spec fn tensor_zeros_like(tensor: Tensor) -> Tensor;

/// Where elements of the first tensor are at least those of the second.
pub uninterp spec fn tensor_ge(left: Tensor, right: Tensor) -> Tensor;

/// Where elements of the first tensor are above those of the second.
pub uninterp spec fn tensor_gt(left: Tensor, right: Tensor) -> Tensor;

/// Where elements of the first tensor are at most those of the second.
pub uninterp spec fn tensor_le(left: Tensor, right: Tensor) -> Tensor;

/// Elements of the second tensor where the first says so, else of the third.
pub uninterp spec fn tensor_where(mask: Tensor, on_true: Tensor, on_false: Tensor) -> Tensor;

/// The product of two tensors, element by element.
pub uninterp spec fn tensor_product(left: Tensor, right: Tensor) -> Tensor;

/// The sum of two tensors, element by element.
pub uninterp spec fn tensor_sum(left: Tensor, right: Tensor) -> Tensor;

/// The difference of two tensors, element by element.
pub uninterp spec fn tensor_difference(left: Tensor, right: Tensor) -> Tensor;

/// The reciprocals of a tensor's elements.
pub uninterp spec fn tensor_reciprocal(tensor: Tensor) -> Tensor;

/// The natural logarithms of a tensor's elements.
pub uninterp spec fn tensor_log(tensor: Tensor) -> Tensor;

/// A tensor's elements with the other sign.
pub uninterp spec fn tensor_negated(tensor: Tensor) -> Tensor;

/// Probabilities along the last dimension.
pub uninterp spec fn tensor_softmax(tensor: Tensor) -> Tensor;

/// A tensor with the same elements in another shape.
pub uninterp spec fn tensor_reshaped(tensor: Tensor, dims: Seq<usize>) -> Tensor;

/// The matrix product of two tensors.
pub uninterp spec fn tensor_matmul(left: Tensor, right: Tensor) -> Tensor;

/// A tensor after all its elements were set to zero.
pub uninterp spec fn tensor_cleared(tensor: Tensor) -> Tensor;

/// The numbers from `start` up to but not including `end`.
pub uninterp spec fn tensor_range(start: u32, end: u32, device: Device) -> Tensor;

/// A tensor of one dimension that repeats a number.
pub uninterp spec fn tensor_repeated(value: i64, count: usize, device: Device) -> Tensor;

/// A reading of a tensor of one number gave this number.
pub uninterp spec fn number_read(tensor: Tensor, number: u32) -> bool;

/// A reading of a tensor of one dimension gave these numbers.
pub uninterp spec fn numbers_read(tensor: Tensor, numbers: Seq<u32>) -> bool;

/// A reading of a tensor gave these bytes.
pub uninterp spec fn bytes_read(tensor: Tensor, bytes: Seq<u8>) -> bool;

/// Two devices are the same one.
pub uninterp spec fn devices_agree(left: Device, right: Device) -> bool;

/// `Tensor::device`: fixed when the tensor is made.
#[verifier::external_body]
pub(crate) fn device_of(tensor: &Tensor) -> (result: Device)
    ensures
        result == tensor_device(*tensor),
{
    tensor.device().clone()
}

/// `Tensor::dtype`: fixed when the tensor is made.
#[verifier::external_body]
pub(crate) fn dtype_of(tensor: &Tensor) -> (result: DType)
    ensures
        result == tensor_dtype(*tensor),
{
    tensor.dtype()
}

/// `DType`'s `==` against `DType::F32`, which holds for that variant alone: floats that the CPU
/// computes with.
#[verifier::external_body]
pub(crate) fn is_single(dtype: DType) -> (result: bool)
    ensures
        result == dtype_is_single(dtype),
        result ==> the_single(dtype),
{
    dtype == DType::F32
}

/// A match on `DType`: whether the CPU backend has operations for the elements. It has none for
/// the four packed types.
#[verifier::external_body]
pub(crate) fn computes(dtype: DType) -> (result: bool)
    ensures
        result == dtype_computes(dtype),
{
    match dtype {
        DType::F6E2M3 | DType::F6E3M2 | DType::F4 | DType::F8E8M0 => false,
        _ => true,
    }
}

/// `Device::is_cpu`: whether the device is the CPU variant.
pub assume_specification[ Device::is_cpu ](device: &Device) -> (result: bool)
    ensures
        result == device_is_cpu(*device),
;

/// `Tensor::is_contiguous`: fixed when the tensor is made.
pub assume_specification[ Tensor::is_contiguous ](tensor: &Tensor) -> (result: bool)
    ensures
        result == tensor_contiguous(*tensor),
;

/// Whether a tensor is in host memory, the CPU computes with its elements, and as many as it has
/// can be allocated.
pub fn is_on_cpu(tensor: &Tensor) -> (result: bool)
    ensures
        result == on_cpu(*tensor),
{
    device_of(tensor).is_cpu() && computes(dtype_of(tensor)) && tensors::is_sized(tensor)
}

/// `DType::is_float`: whether the elements are floats.
pub assume_specification[ DType::is_float ](dtype: &DType) -> (result: bool)
    ensures
        result == dtype_is_float(*dtype),
;

/// `DType`'s `==`: the variants have no fields, so equal types are the same.
#[verifier::external_body]
pub(crate) fn same_dtype(left: DType, right: DType) -> (result: bool)
    ensures
        result == (left == right),
{
    left == right
}

/// `Device::same_device`: whether two handles stand for one device.
#[verifier::external_body]
pub(crate) fn same_device(left: &Device, right: &Device) -> (result: bool)
    ensures
        result == devices_agree(*left, *right),
{
    left.same_device(right)
}

/// `Tensor::squeeze`: a view without dimension `dim` where that has size 1, else the tensor
/// itself. It fails exactly where there is no such dimension. Device, element type and order
/// stay.
#[verifier::external_body]
pub(crate) fn squeeze(tensor: &Tensor, dim: usize) -> (result: TensorResult)
    ensures
        match result {
            Ok(out) => {
                &&& out == tensor_squeezed(*tensor, dim)
                &&& tensors::part_exists(tensors::tensor_dims(*tensor), dim as int, 0, 0)
                &&& tensors::tensor_dims(out) == if tensors::tensor_dims(*tensor)[dim as int] == 1 {
                    tensors::tensor_dims(*tensor).remove(dim as int)
                } else {
                    tensors::tensor_dims(*tensor)
                }
                &&& tensor_device(out) == tensor_device(*tensor)
                &&& tensor_dtype(out) == tensor_dtype(*tensor)
                &&& tensor_contiguous(out) == tensor_contiguous(*tensor)
            },
            Err(_) => !tensors::part_exists(tensors::tensor_dims(*tensor), dim as int, 0, 0),
        },
{
    tensor.squeeze(dim)
}

/// The tensor has elements, or it is of zeros that were just made: it begins within its storage.
pub open spec fn readable(tensor: Tensor) -> bool {
    ||| tensors::has_elements(tensor)
    ||| exists|like: Tensor| tensor == #[trigger] tensor_zeros_like(like)
}

/// `Tensor::to_dtype` with `DType::F32`; the shape stays. A tensor of F32 elements is handed back
/// as it is. Other conversions put the elements in order and can fail on a device; the CPU has one
/// from every type that it computes with. Left out are tensors without elements, which may begin
/// outside their storage, but for fresh zeros, and more elements than can be allocated.
#[verifier::external_body]
pub(crate) fn to_single(tensor: &Tensor) -> (result: TensorResult)
    requires
        dtype_is_single(tensor_dtype(*tensor)) || (readable(*tensor) && tensors::sized(*tensor)),
    ensures
        match result {
            Ok(out) => {
                &&& out == tensor_as_single(*tensor)
                &&& tensors::tensor_dims(out) == tensors::tensor_dims(*tensor)
                &&& the_single(tensor_dtype(out))
                &&& dtype_is_single(tensor_dtype(*tensor)) ==> out == *tensor
                &&& !dtype_is_single(tensor_dtype(*tensor)) ==> tensor_contiguous(out)
                &&& on_cpu(*tensor) ==> on_cpu(out)
            },
            Err(_) => !dtype_is_single(tensor_dtype(*tensor)) && !on_cpu(*tensor),
        },
{
    tensor.to_dtype(DType::F32)
}

/// A tensor's elements as singles. Of one without elements, fresh zeros are converted in its place.
pub open spec fn single_of(tensor: Tensor) -> Tensor {
    if dtype_is_single(tensor_dtype(tensor)) || tensors::has_elements(tensor) {
        tensor_as_single(tensor)
    } else {
        tensor_as_single(tensor_zeros_like(tensor))
    }
}

/// Converts a tensor to singles; the shape stays. It cannot fail for singles. Else a device can
/// fail at it, and more elements than can be allocated are not converted.
pub(crate) fn make_single(tensor: &Tensor) -> (result: TensorResult)
    ensures
        match result {
            Ok(out) => {
                &&& out == single_of(*tensor)
                &&& tensors::tensor_dims(out) == tensors::tensor_dims(*tensor)
                &&& the_single(tensor_dtype(out))
                &&& dtype_is_single(tensor_dtype(*tensor)) ==> out == *tensor
                &&& !dtype_is_single(tensor_dtype(*tensor)) ==> tensor_contiguous(out)
                &&& on_cpu(*tensor) ==> on_cpu(out)
            },
            Err(_) => !dtype_is_single(tensor_dtype(*tensor)) && !on_cpu(*tensor),
        },
{
    if is_single(dtype_of(tensor)) {
        return to_single(tensor);
    }
    tensors::demand_size(tensor)?;
    if tensors::holds_elements(tensor) {
        to_single(tensor)
    } else {
        let blank = zeros_like(tensor)?;
        to_single(&blank)
    }
}

/// `Tensor::to_dtype` with `DType::F64`; the shape stays. It can fail on a device; the CPU has a
/// conversion from every type that it computes with. Left out are a tensor without elements, which
/// may begin outside its storage, and more elements than can be allocated.
#[verifier::external_body]
pub(crate) fn to_double(tensor: &Tensor) -> (result: TensorResult)
    requires
        tensors::has_elements(*tensor),
        tensors::sized(*tensor),
    ensures
        match result {
            Ok(out) => {
                &&& out == tensor_as_double(*tensor)
                &&& tensors::tensor_dims(out) == tensors::tensor_dims(*tensor)
                &&& dtype_is_float(tensor_dtype(out))
                &&& on_cpu(*tensor) ==> on_cpu(out)
            },
            Err(_) => !on_cpu(*tensor),
        },
{
    tensor.to_dtype(DType::F64)
}

/// `Tensor::to_dtype`; the shape stays. It can fail on a device; the CPU converts between all
/// types that it computes with. Left out are a tensor without elements, which may begin outside its
/// storage, and more elements than can be allocated.
#[verifier::external_body]
pub(crate) fn convert(tensor: &Tensor, dtype: DType) -> (result: TensorResult)
    requires
        tensors::has_elements(*tensor),
        tensors::sized(*tensor),
    ensures
        match result {
            Ok(out) => {
                &&& out == tensor_converted(*tensor, dtype)
                &&& tensors::tensor_dims(out) == tensors::tensor_dims(*tensor)
                &&& tensor_dtype(out) == dtype
                &&& on_cpu(*tensor) && dtype_computes(dtype) ==> on_cpu(out)
            },
            Err(_) => !(on_cpu(*tensor) && dtype_computes(dtype)),
        },
{
    tensor.to_dtype(dtype)
}

/// The last dimension, if there is one, has a step from index to index: it has two, or it is a
/// copy's.
pub open spec fn steps(tensor: Tensor) -> bool {
    let dims = tensors::tensor_dims(tensor);
    ||| dims.len() > 0 ==> dims.last() > 1
    ||| exists|source: Tensor| tensor == #[trigger] tensors::tensor_copied(source)
}

/// The tensor itself, or a copy where its last dimension has one index.
pub open spec fn stepped(tensor: Tensor) -> Tensor {
    let dims = tensors::tensor_dims(tensor);
    if dims.len() > 0 && dims.last() == 1 {
        tensors::tensor_copied(tensor)
    } else {
        tensor
    }
}

/// Copies a tensor whose last dimension has one index. A device can fail at it.
pub(crate) fn with_steps(tensor: &Tensor) -> (result: TensorResult)
    requires
        tensors::has_elements(*tensor),
        tensors::sized(*tensor),
    ensures
        match result {
            Ok(out) => {
                &&& out == stepped(*tensor)
                &&& tensors::tensor_dims(out) == tensors::tensor_dims(*tensor)
                &&& tensor_device(out) == tensor_device(*tensor)
                &&& tensor_dtype(out) == tensor_dtype(*tensor)
                &&& steps(out)
            },
            Err(_) => !on_cpu(*tensor),
        },
{
    let dims = tensors::dims(tensor);
    if dims.len() > 0 && dims[dims.len() - 1] == 1 {
        tensors::force_contiguous(tensor)
    } else {
        proof {
            if dims@.len() > 0 {
                tensors::lemma_last_dim(dims@);
            }
        }
        Ok(tensor.clone())
    }
}

/// Where the largest elements along the last dimension are. It fails without a dimension or
/// without elements; else only a device can fail at it.
pub(crate) fn find_largest(tensor: &Tensor) -> (result: TensorResult)
    ensures
        match result {
            Ok(out) => {
                &&& out == tensor_argmax(stepped(*tensor))
                &&& tensors::tensor_dims(stepped(*tensor)) == tensors::tensor_dims(*tensor)
                &&& tensors::has_elements(*tensor)
                &&& tensors::sized(*tensor)
                &&& tensors::tensor_dims(*tensor).len() > 0
                &&& tensors::tensor_dims(out) == tensors::tensor_dims(*tensor).drop_last()
                &&& dtype_is_number(tensor_dtype(out))
                &&& on_cpu(*tensor) ==> on_cpu(out)
            },
            Err(_) => !argmax_on_cpu(*tensor),
        },
{
    tensors::demand_elements(tensor)?;
    tensors::demand_size(tensor)?;
    let ready = with_steps(tensor)?;
    argmax_last(&ready)
}

/// The CPU finds where the largest elements along the last dimension are: there is one, and there
/// are elements.
pub open spec fn argmax_on_cpu(tensor: Tensor) -> bool {
    on_cpu(tensor) && tensors::tensor_dims(tensor).len() > 0 && tensors::has_elements(tensor)
}

/// `Tensor::argmax` along the last dimension, which the result does not have: U32 numbers. It
/// fails without a dimension, and can fail on a device. Left out are tensors without elements or
/// with more than can be allocated, and a last dimension of one index, which a view may have
/// without a step, unless it is a copy's.
#[verifier::external_body]
pub(crate) fn argmax_last(tensor: &Tensor) -> (result: TensorResult)
    requires
        tensors::has_elements(*tensor),
        steps(*tensor),
        tensors::sized(*tensor),
    ensures
        match result {
            Ok(out) => {
                &&& out == tensor_argmax(*tensor)
                &&& tensors::tensor_dims(*tensor).len() > 0
                &&& tensors::tensor_dims(out) == tensors::tensor_dims(*tensor).drop_last()
                &&& dtype_is_number(tensor_dtype(out))
                &&& on_cpu(*tensor) ==> on_cpu(out)
            },
            Err(_) => !argmax_on_cpu(*tensor),
        },
{
    tensor.argmax(D::Minus1)
}

/// The CPU finds all elements of a row at these indices: both stand in order, and the indices were
/// made of numbers in range.
pub open spec fn gathers_on_cpu(tensor: Tensor, indices: Tensor) -> bool {
    let dims = tensors::tensor_dims(tensor);
    &&& on_cpu(tensor) && on_cpu(indices)
    &&& tensor_contiguous(tensor) && tensor_contiguous(indices)
    &&& dims.len() == 1 && tensors::tensor_dims(indices).len() == 1
    &&& tensors::has_elements(tensor) && tensors::has_elements(indices)
    &&& numbers_below(indices, dims[0] as int)
}

/// `Tensor::gather` along the last dimension; the result has the shape of the indices and the
/// element type of the tensor, in order. It fails where shapes do not match, the elements are not
/// in order or an index is out of range, and can fail on a device. Left out are tensors without
/// elements, which may begin outside their storage, or with more than can be allocated.
#[verifier::external_body]
pub(crate) fn gather_last(tensor: &Tensor, indices: &Tensor) -> (result: TensorResult)
    requires
        tensors::has_elements(*tensor),
        tensors::has_elements(*indices),
        tensors::sized(*tensor),
        tensors::sized(*indices),
    ensures
        match result {
            Ok(out) => {
                &&& out == tensor_gathered(*tensor, *indices)
                &&& tensors::tensor_dims(out) == tensors::tensor_dims(*indices)
                &&& tensor_dtype(out) == tensor_dtype(*tensor)
                &&& on_cpu(*tensor) ==> on_cpu(out)
                &&& tensor_contiguous(out)
            },
            Err(_) => !gathers_on_cpu(*tensor, *indices),
        },
{
    tensor.gather(indices, D::Minus1)
}

/// The CPU writes elements to a row at these indices: all stand in order, there is one element of
/// the row's type for each index, and the indices were made of numbers in range.
pub open spec fn scatters_on_cpu(view: Tensor, indices: Tensor, elements: Tensor) -> bool {
    &&& gathers_on_cpu(view, indices)
    &&& on_cpu(elements) && tensor_contiguous(elements)
    &&& tensor_dtype(elements) == tensor_dtype(view)
    &&& tensors::tensor_dims(elements) == tensors::tensor_dims(indices)
}

/// `Tensor::scatter_set` along the last dimension of `view`, which is `tensor` or a part of it:
/// writes in place and leaves the shape alone. Indices and elements are copied first, since they
/// must not be read from the storage that is written. It fails where shapes or element types do
/// not match, elements are not in order or an index is out of range, and can fail on a device. Left
/// out are tensors without elements, which may begin outside their storage, or with more than can
/// be allocated, and a row of U32 numbers: tensors of indices keep what they were made of.
#[verifier::external_body]
pub(crate) fn scatter_last(tensor: Tensor, view: &Tensor, indices: &Tensor, elements: &Tensor) -> (result:
    TensorResult)
    requires
        tensors::has_elements(*view),
        tensors::has_elements(*indices),
        tensors::has_elements(*elements),
        !dtype_is_number(tensor_dtype(*view)),
        tensors::sized(*view),
        tensors::sized(*indices),
        tensors::sized(*elements),
    ensures
        match result {
            Ok(out) => {
                &&& out == tensor_scattered(tensor, *view, *indices, *elements)
                &&& tensors::tensor_dims(out) == tensors::tensor_dims(tensor)
                &&& tensor_dtype(out) == tensor_dtype(tensor)
                &&& tensor_device(out) == tensor_device(tensor)
                &&& tensor_contiguous(out) == tensor_contiguous(tensor)
            },
            Err(_) => !scatters_on_cpu(*view, *indices, *elements),
        },
{
    view.scatter_set(&indices.copy()?, &elements.copy()?, D::Minus1)?;
    Ok(tensor)
}

/// `Tensor::from_vec` of numbers, in one dimension. It can fail on a device, not on the CPU.
#[verifier::external_body]
pub(crate) fn of_ids(ids: Vec<u32>, device: &Device) -> (result: TensorResult)
    ensures
        match result {
            Ok(out) => {
                &&& out == tensor_of_ids(ids@, *device)
                &&& tensors::tensor_dims(out) == seq![ids@.len() as usize]
                &&& tensor_contiguous(out)
                &&& dtype_is_number(tensor_dtype(out))
                &&& device_is_cpu(*device) && tensors::sized(out) ==> on_cpu(out)
            },
            Err(_) => !device_is_cpu(*device),
        },
{
    let len = ids.len();
    Tensor::from_vec(ids, len, device)
}

/// `Tensor::from_raw_buffer` of one F32 element. It can fail on a device, not on the CPU.
#[verifier::external_body]
pub(crate) fn of_single(bits: u32, device: &Device) -> (result: TensorResult)
    ensures
        match result {
            Ok(out) => {
                &&& out == tensor_of_single(bits, *device)
                &&& tensors::tensor_dims(out) == seq![1usize]
                &&& the_single(tensor_dtype(out))
                &&& device_is_cpu(*device) ==> on_cpu(out)
            },
            Err(_) => !device_is_cpu(*device),
        },
{
    Tensor::from_raw_buffer(&bits.to_ne_bytes(), DType::F32, &[1], device)
}

/// `Tensor::from_raw_buffer` of one F64 element, without a dimension. It can fail on a device, not on the CPU.
#[verifier::external_body]
pub(crate) fn of_double(bits: u64, device: &Device) -> (result: TensorResult)
    ensures
        match result {
            Ok(out) => {
                &&& out == tensor_of_double(bits, *device)
                &&& tensors::tensor_dims(out) == Seq::<usize>::empty()
                &&& dtype_is_float(tensor_dtype(out))
                &&& device_is_cpu(*device) ==> on_cpu(out)
            },
            Err(_) => !device_is_cpu(*device),
        },
{
    Tensor::from_raw_buffer(&bits.to_ne_bytes(), DType::F64, &[], device)
}

/// `Tensor::zeros_like`: zeros of the same shape, element type and device. It can fail on a
/// device, not on the CPU. More elements than can be allocated are left out.
#[verifier::external_body]
pub(crate) fn zeros_like(tensor: &Tensor) -> (result: TensorResult)
    requires
        tensors::sized(*tensor),
    ensures
        match result {
            Ok(out) => {
                &&& out == tensor_zeros_like(*tensor)
                &&& tensors::tensor_dims(out) == tensors::tensor_dims(*tensor)
                &&& tensors::tensor_element_bytes(out) == tensors::tensor_element_bytes(*tensor)
                &&& tensor_dtype(out) == tensor_dtype(*tensor)
                &&& on_cpu(*tensor) ==> on_cpu(out)
            },
            Err(_) => !on_cpu(*tensor),
        },
{
    tensor.zeros_like()
}

/// The CPU compares these tensors, or computes with both: they have one shape and one element type.
pub open spec fn pairs_on_cpu(left: Tensor, right: Tensor) -> bool {
    &&& on_cpu(left) && on_cpu(right)
    &&& tensor_dtype(left) == tensor_dtype(right)
    &&& tensors::tensor_dims(left) == tensors::tensor_dims(right)
}

/// `Tensor::ge`, between tensors of one shape, as U8 elements. It fails where shapes or element
/// types do not match, and can fail on a device. Left out are tensors without
/// elements, which may begin outside their storage, or with more than can be allocated.
#[verifier::external_body]
pub(crate) fn ge(left: &Tensor, right: &Tensor) -> (result: TensorResult)
    requires
        tensors::has_elements(*left),
        tensors::has_elements(*right),
        tensors::sized(*left),
        tensors::sized(*right),
    ensures
        match result {
            Ok(out) => {
                &&& out == tensor_ge(*left, *right)
                &&& tensors::tensor_dims(out) == tensors::tensor_dims(*left)
                &&& dtype_is_byte(tensor_dtype(out))
                &&& dtype_computes(tensor_dtype(out)) && !dtype_is_number(tensor_dtype(out))
                &&& on_cpu(*left) ==> on_cpu(out)
            },
            Err(_) => !pairs_on_cpu(*left, *right),
        },
{
    left.ge(right)
}

/// `Tensor::gt`, between tensors of one shape, as U8 elements. It fails where shapes or element
/// types do not match, and can fail on a device. Left out are tensors without
/// elements, which may begin outside their storage, or with more than can be allocated.
#[verifier::external_body]
pub(crate) fn gt(left: &Tensor, right: &Tensor) -> (result: TensorResult)
    requires
        tensors::has_elements(*left),
        tensors::has_elements(*right),
        tensors::sized(*left),
        tensors::sized(*right),
    ensures
        match result {
            Ok(out) => {
                &&& out == tensor_gt(*left, *right)
                &&& tensors::tensor_dims(out) == tensors::tensor_dims(*left)
                &&& dtype_is_byte(tensor_dtype(out))
                &&& dtype_computes(tensor_dtype(out)) && !dtype_is_number(tensor_dtype(out))
                &&& on_cpu(*left) ==> on_cpu(out)
            },
            Err(_) => !pairs_on_cpu(*left, *right),
        },
{
    left.gt(right)
}

/// `Tensor::broadcast_le` with a single limit, as U8 elements in the shape of the other. It fails
/// where element types do not match, and can fail on a device. Left out are other limits, tensors
/// without elements, which may begin outside their storage, and more elements than can be
/// allocated.
#[verifier::external_body]
pub(crate) fn le(left: &Tensor, right: &Tensor) -> (result: TensorResult)
    requires
        tensors::has_elements(*left),
        tensors::has_elements(*right),
        scales(*left, *right),
        tensors::sized(*left),
    ensures
        match result {
            Ok(out) => {
                &&& out == tensor_le(*left, *right)
                &&& tensors::tensor_dims(out) == tensors::tensor_dims(*left)
                &&& dtype_is_byte(tensor_dtype(out))
                &&& dtype_computes(tensor_dtype(out)) && !dtype_is_number(tensor_dtype(out))
                &&& tensor_contiguous(out)
                &&& on_cpu(*left) ==> on_cpu(out)
            },
            Err(_) => !(on_cpu(*left) && on_cpu(*right) && tensor_dtype(*left) == tensor_dtype(
                *right,
            )),
        },
{
    left.broadcast_le(right)
}

/// The CPU chooses between these tensors: the mask has U8 elements, and all have one shape.
pub open spec fn chooses_on_cpu(mask: Tensor, on_true: Tensor, on_false: Tensor) -> bool {
    &&& on_cpu(mask) && dtype_is_byte(tensor_dtype(mask))
    &&& pairs_on_cpu(on_true, on_false)
    &&& tensors::tensor_dims(mask) == tensors::tensor_dims(on_true)
}

/// `Tensor::where_cond`, between tensors of one shape; the element type is that of the choices,
/// and the elements are in order. It fails where shapes or element types do not match, and can
/// fail on a device. Tensors without elements, which may begin outside their storage, are left
/// out, and so are more elements than can be allocated.
#[verifier::external_body]
pub(crate) fn choose_by(mask: &Tensor, on_true: &Tensor, on_false: &Tensor) -> (result:
    TensorResult)
    requires
        tensors::has_elements(*mask),
        tensors::has_elements(*on_true),
        tensors::has_elements(*on_false),
        tensors::sized(*mask),
        tensors::sized(*on_true),
        tensors::sized(*on_false),
    ensures
        match result {
            Ok(out) => {
                &&& out == tensor_where(*mask, *on_true, *on_false)
                &&& tensors::tensor_dims(out) == tensors::tensor_dims(*mask)
                &&& tensor_dtype(out) == tensor_dtype(*on_true)
                &&& tensor_contiguous(out)
                &&& on_cpu(*on_true) ==> on_cpu(out)
            },
            Err(_) => !chooses_on_cpu(*mask, *on_true, *on_false),
        },
{
    mask.where_cond(on_true, on_false)
}

/// A single factor scales the other tensor: it has no dimension, or one of one index where the
/// other has a dimension too.
pub open spec fn scales(left: Tensor, right: Tensor) -> bool {
    let dims = tensors::tensor_dims(right);
    dims.len() == 0 || (dims == seq![1usize] && tensors::tensor_dims(left).len() > 0)
}

/// `Tensor::broadcast_mul` with a single factor, which leaves the shape of the other alone. It
/// fails where element types do not match, and can fail on a device. Left out are other factors,
/// integers, which could overflow, and more elements than can be allocated.
#[verifier::external_body]
pub(crate) fn multiply(left: &Tensor, right: &Tensor) -> (result: TensorResult)
    requires
        dtype_is_float(tensor_dtype(*right)),
        scales(*left, *right),
        tensors::sized(*left),
    ensures
        match result {
            Ok(out) => {
                &&& out == tensor_product(*left, *right)
                &&& tensors::tensor_dims(out) == tensors::tensor_dims(*left)
                &&& tensor_dtype(out) == tensor_dtype(*left)
                &&& tensor_dtype(*left) == tensor_dtype(*right) || tensors::dims_product(
                    tensors::tensor_dims(out),
                ) == 0
                &&& tensors::dims_product(tensors::tensor_dims(out)) > 0 ==> tensor_contiguous(out)
                &&& on_cpu(*left) ==> on_cpu(out)
            },
            Err(_) => !(on_cpu(*left) && on_cpu(*right) && tensor_dtype(*left) == tensor_dtype(
                *right,
            )),
        },
{
    left.broadcast_mul(right)
}

/// `Tensor::add`, between tensors of one shape. It fails where shapes or element types do not
/// match, and can fail on a device. Left out are integers, which could overflow, and more elements
/// than can be allocated.
#[verifier::external_body]
pub(crate) fn plus(left: &Tensor, right: &Tensor) -> (result: TensorResult)
    requires
        dtype_is_float(tensor_dtype(*right)),
        tensors::sized(*left),
        tensors::sized(*right),
    ensures
        match result {
            Ok(out) => {
                &&& out == tensor_sum(*left, *right)
                &&& tensors::tensor_dims(out) == tensors::tensor_dims(*left)
                &&& tensor_dtype(out) == tensor_dtype(*left)
                &&& on_cpu(*left) ==> on_cpu(out)
            },
            Err(_) => !pairs_on_cpu(*left, *right),
        },
{
    left.add(right)
}

/// `Tensor::sub`, between tensors of one shape. It fails where shapes or element types do not
/// match, and can fail on a device. Left out are integers, which could overflow, and more elements
/// than can be allocated.
#[verifier::external_body]
pub(crate) fn minus(left: &Tensor, right: &Tensor) -> (result: TensorResult)
    requires
        dtype_is_float(tensor_dtype(*right)),
        tensors::sized(*left),
        tensors::sized(*right),
    ensures
        match result {
            Ok(out) => {
                &&& out == tensor_difference(*left, *right)
                &&& tensors::tensor_dims(*left) == tensors::tensor_dims(*right)
                &&& tensors::tensor_dims(out) == tensors::tensor_dims(*left)
                &&& tensor_dtype(out) == tensor_dtype(*left)
                &&& on_cpu(*left) ==> on_cpu(out)
            },
            Err(_) => !pairs_on_cpu(*left, *right),
        },
{
    left.sub(right)
}

/// `Tensor::recip`; shape and element type stay. It can fail on a device, not on the CPU. Left
/// out are integers, for which there is no such operation, and more elements than can be allocated.
#[verifier::external_body]
pub(crate) fn reciprocal(tensor: &Tensor) -> (result: TensorResult)
    requires
        dtype_is_float(tensor_dtype(*tensor)),
        tensors::sized(*tensor),
    ensures
        match result {
            Ok(out) => {
                &&& out == tensor_reciprocal(*tensor)
                &&& tensors::tensor_dims(out) == tensors::tensor_dims(*tensor)
                &&& tensor_dtype(out) == tensor_dtype(*tensor)
                &&& on_cpu(*tensor) ==> on_cpu(out)
            },
            Err(_) => !on_cpu(*tensor),
        },
{
    tensor.recip()
}

/// `Tensor::log`; shape and element type stay. It can fail on a device, not on the CPU. Left
/// out are integers, for which there is no such operation, and more elements than can be allocated.
#[verifier::external_body]
pub(crate) fn log(tensor: &Tensor) -> (result: TensorResult)
    requires
        dtype_is_float(tensor_dtype(*tensor)),
        tensors::sized(*tensor),
    ensures
        match result {
            Ok(out) => {
                &&& out == tensor_log(*tensor)
                &&& tensors::tensor_dims(out) == tensors::tensor_dims(*tensor)
                &&& tensor_dtype(out) == tensor_dtype(*tensor)
                &&& on_cpu(*tensor) ==> on_cpu(out)
            },
            Err(_) => !on_cpu(*tensor),
        },
{
    tensor.log()
}

/// `Tensor::neg`; shape and element type stay. It can fail on a device, not on the CPU. Left
/// out are integers, for which there is no such operation, and more elements than can be allocated.
#[verifier::external_body]
pub(crate) fn negate(tensor: &Tensor) -> (result: TensorResult)
    requires
        dtype_is_float(tensor_dtype(*tensor)),
        tensors::sized(*tensor),
    ensures
        match result {
            Ok(out) => {
                &&& out == tensor_negated(*tensor)
                &&& tensors::tensor_dims(out) == tensors::tensor_dims(*tensor)
                &&& tensor_dtype(out) == tensor_dtype(*tensor)
                &&& on_cpu(*tensor) ==> on_cpu(out)
            },
            Err(_) => !on_cpu(*tensor),
        },
{
    tensor.neg()
}

/// `candle_nn::ops::softmax_last_dim`; shape and element type stay. It fails where the elements are
/// not floats or not in order, and can fail on a device. Left out is a tensor without a dimension,
/// without elements or with more than can be allocated.
#[verifier::external_body]
pub(crate) fn softmax_last(tensor: &Tensor) -> (result: TensorResult)
    requires
        tensors::tensor_dims(*tensor).len() > 0,
        tensors::has_elements(*tensor),
        tensors::sized(*tensor),
    ensures
        match result {
            Ok(out) => {
                &&& out == tensor_softmax(*tensor)
                &&& tensors::tensor_dims(out) == tensors::tensor_dims(*tensor)
                &&& tensor_dtype(out) == tensor_dtype(*tensor)
                &&& on_cpu(*tensor) ==> on_cpu(out)
            },
            Err(_) => !(on_cpu(*tensor) && dtype_is_single(tensor_dtype(*tensor))
                && tensor_contiguous(*tensor)),
        },
{
    candle_nn::ops::softmax_last_dim(tensor)
}

/// `Tensor::reshape`, in row-major order; it fails where the numbers of elements differ, and can
/// fail on a device. Left out are a shape whose elements no machine could count, and more elements
/// than can be allocated.
#[verifier::external_body]
pub(crate) fn reshape(tensor: &Tensor, dims: Vec<usize>) -> (result: TensorResult)
    requires
        tensors::countable(dims@),
        tensors::sized(*tensor),
    ensures
        match result {
            Ok(out) => {
                &&& out == tensor_reshaped(*tensor, dims@)
                &&& tensors::tensor_dims(out) == dims@
                &&& tensor_dtype(out) == tensor_dtype(*tensor)
                &&& tensor_contiguous(out)
                &&& on_cpu(*tensor) ==> on_cpu(out)
            },
            Err(_) => !(on_cpu(*tensor) && tensors::dims_product(tensors::tensor_dims(*tensor))
                == tensors::dims_product(dims@)),
        },
{
    tensor.reshape(dims)
}

/// The CPU multiplies these matrices of F32 elements: their shapes match.
pub open spec fn multiplies_on_cpu(left: Tensor, right: Tensor) -> bool {
    let a = tensors::tensor_dims(left);
    let b = tensors::tensor_dims(right);
    &&& on_cpu(left) && on_cpu(right)
    &&& dtype_is_single(tensor_dtype(left)) && dtype_is_single(tensor_dtype(right))
    &&& a.len() == 2 && b.len() == 2 && a[1] == b[0]
}

/// `Tensor::matmul` of two matrices; it fails where shapes or element types do not match, and can
/// fail on a device. Matrices, or a product, of more elements than can be allocated are left out.
#[verifier::external_body]
pub(crate) fn matmul(left: &Tensor, right: &Tensor) -> (result: TensorResult)
    requires
        tensors::tensor_dims(*left).len() == 2,
        tensors::tensor_dims(*right).len() == 2,
        tensors::sized(*left),
        tensors::sized(*right),
        tensors::shape_allocates(
            seq![tensors::tensor_dims(*left)[0], tensors::tensor_dims(*right)[1]],
        ),
    ensures
        match result {
            Ok(out) => {
                &&& out == tensor_matmul(*left, *right)
                &&& tensors::tensor_dims(out) == seq![
                    tensors::tensor_dims(*left)[0],
                    tensors::tensor_dims(*right)[1],
                ]
                &&& tensor_dtype(out) == tensor_dtype(*left)
                &&& on_cpu(*left) ==> on_cpu(out)
            },
            Err(_) => !multiplies_on_cpu(*left, *right),
        },
{
    left.matmul(right)
}

/// `Tensor::zero_set`: writes zeros in place and leaves the shape alone. It can fail on a device,
/// not on the CPU. Left out are tensors without elements, which may begin outside their storage,
/// more elements than can be allocated, packed elements, which have no zero here, and U32 numbers:
/// tensors of indices keep what they were made of.
#[verifier::external_body]
pub(crate) fn clear(tensor: Tensor) -> (result: TensorResult)
    requires
        tensors::has_elements(tensor),
        dtype_computes(tensor_dtype(tensor)),
        !dtype_is_number(tensor_dtype(tensor)),
        tensors::sized(tensor),
    ensures
        match result {
            Ok(out) => {
                &&& out == tensor_cleared(tensor)
                &&& tensors::tensor_dims(out) == tensors::tensor_dims(tensor)
                &&& tensor_dtype(out) == tensor_dtype(tensor)
                &&& tensor_device(out) == tensor_device(tensor)
                &&& tensor_contiguous(out) == tensor_contiguous(tensor)
            },
            Err(_) => !on_cpu(tensor),
        },
{
    tensor.zero_set()?;
    Ok(tensor)
}

/// `Tensor::arange`: the numbers of a range, in one dimension. It can fail on a device, not on the
/// CPU. More numbers than can be allocated are left out.
#[verifier::external_body]
pub(crate) fn range(start: u32, end: u32, device: &Device) -> (result: TensorResult)
    requires
        start <= end ==> end - start <= usize::MAX && tensors::shape_allocates(
            seq![(end - start) as usize],
        ),
    ensures
        match result {
            Ok(out) => {
                &&& out == tensor_range(start, end, *device)
                &&& start <= end ==> tensors::tensor_dims(out) == seq![(end - start) as usize]
                &&& tensor_contiguous(out)
                &&& dtype_is_number(tensor_dtype(out))
                &&& device_is_cpu(*device) ==> on_cpu(out)
            },
            Err(_) => !device_is_cpu(*device),
        },
{
    Tensor::arange(start, end, device)
}

/// `Tensor::full`: one number, `count` times. It can fail on a device, not on the CPU.
#[verifier::external_body]
pub(crate) fn repeat(value: i64, count: usize, device: &Device) -> (result: TensorResult)
    requires
        tensors::shape_allocates(seq![count]),
    ensures
        match result {
            Ok(out) => {
                &&& out == tensor_repeated(value, count, *device)
                &&& tensors::tensor_dims(out) == seq![count]
                &&& device_is_cpu(*device) ==> on_cpu(out)
            },
            Err(_) => !device_is_cpu(*device),
        },
{
    Tensor::full(value, count, device)
}

/// `Tensor::to_scalar` of a tensor of one number. It fails where there is a dimension or the
/// elements are not U32, and can fail on a device. A later reading may give another number, where
/// the tensor was written to in between.
#[verifier::external_body]
pub(crate) fn read_token(tensor: &Tensor) -> (result: Result<u32, candle_core::Error>)
    ensures
        match result {
            Ok(token) => number_read(*tensor, token),
            Err(_) => !(tensors::tensor_dims(*tensor).len() == 0 && dtype_is_number(
                tensor_dtype(*tensor),
            ) && on_cpu(*tensor)),
        },
{
    tensor.to_scalar()
}

/// `Tensor::to_vec1` of numbers: as many as the one dimension has. It fails where there is another
/// number of dimensions or the elements are not U32, and can fail on a device. A later reading may
/// give other numbers, where the tensor was written to in between. Left out is a tensor without
/// elements, which may begin outside its storage, or with more than can be allocated.
#[verifier::external_body]
pub(crate) fn read_tokens(tensor: &Tensor) -> (result: Result<Vec<u32>, candle_core::Error>)
    requires
        tensors::has_elements(*tensor),
        tensors::sized(*tensor),
    ensures
        match result {
            Ok(tokens) => tensors::tensor_dims(*tensor) == seq![tokens@.len() as usize]
                && numbers_read(*tensor, tokens@),
            Err(_) => !(tensors::tensor_dims(*tensor).len() == 1 && dtype_is_number(
                tensor_dtype(*tensor),
            ) && on_cpu(*tensor)),
        },
{
    tensor.to_vec1()
}

/// `Tensor::write_bytes` into memory: the elements in order, each with its low byte first. It can
/// fail on a device, not on the CPU. A later reading may give other bytes, where the tensor was
/// written to in between. Left out is a tensor without elements, which may begin outside its
/// storage, or with more than can be allocated.
#[verifier::external_body]
pub(crate) fn read_bytes(tensor: &Tensor) -> (result: Result<Vec<u8>, candle_core::Error>)
    requires
        tensors::has_elements(*tensor),
        tensors::sized(*tensor),
    ensures
        match result {
            Ok(bytes) => {
                &&& bytes_read(*tensor, bytes@)
                &&& dtype_is_single(tensor_dtype(*tensor)) ==> bytes@.len() == 4
                    * tensors::dims_product(tensors::tensor_dims(*tensor))
            },
            Err(_) => !on_cpu(*tensor),
        },
{
    let mut bytes = Vec::new();
    tensor.write_bytes(&mut bytes)?;
    Ok(bytes)
}

} // verus!
