//! What the elements of tensors are, in exact arithmetic.
//!
//! A tensor is known by how it was made. Here stands what each way of making one means for its
//! elements, so that laws can speak of logits, keys and values. It is stated of any reading of
//! tensors that is exact: one in which a part has the elements of the whole, a sum those of its
//! terms added up, and so on, without rounding. Elements are those that a tensor had when it was
//! made or last written.
use crate::floats;
use crate::sampling::draw;
use crate::tensor_math;
use crate::tensors;
use candle_core::{DType, Device, Tensor};
use vstd::prelude::*;

verus! {

/// A reading of tensors, and of the numbers behind bit patterns.
pub struct Elements {
    /// The element of a tensor at a place.
    pub at: spec_fn(Tensor, Seq<int>) -> real,
    /// The number that a single's bits stand for.
    pub single: spec_fn(u32) -> real,
    /// The number that a double's bits stand for.
    pub double: spec_fn(u64) -> real,
    /// The exponential function.
    pub exp: spec_fn(real) -> real,
    /// The natural logarithm.
    pub ln: spec_fn(real) -> real,
}

impl Elements {
    /// The element at index `i` of a line.
    pub open spec fn line(&self, t: Tensor, i: int) -> real {
        (self.at)(t, seq![i])
    }

    /// The element in row `i` and column `j` of a matrix.
    pub open spec fn cell(&self, t: Tensor, i: int, j: int) -> real {
        (self.at)(t, seq![i, j])
    }

    /// The tensor was read as this number, and has not been written since.
    pub open spec fn took(&self, t: Tensor, number: u32) -> bool {
        tensor_math::number_read(t, number) && (self.at)(t, Seq::empty()) == number as int as real
    }

    /// The line was read as these numbers, and has not been written since.
    pub open spec fn took_all(&self, t: Tensor, numbers: Seq<u32>) -> bool {
        &&& tensor_math::numbers_read(t, numbers)
        &&& forall|i: int|
            0 <= i < numbers.len() ==> #[trigger] self.line(t, i) == numbers[i] as int as real
    }
}

/// The place lies within a shape.
pub open spec fn within(place: Seq<int>, dims: Seq<usize>) -> bool {
    &&& place.len() == dims.len()
    &&& forall|i: int| 0 <= i < dims.len() ==> 0 <= #[trigger] place[i] < dims[i]
}

/// The first `count` values added up.
pub open spec fn total(values: spec_fn(int) -> real, count: int) -> real
    decreases count,
{
    if count <= 0 {
        0 as real
    } else {
        total(values, count - 1) + values(count - 1)
    }
}

/// Where a place comes in row-major order.
pub open spec fn rank_of(place: Seq<int>, dims: Seq<usize>) -> int
    decreases dims.len(),
{
    if dims.len() == 0 || place.len() == 0 {
        0
    } else {
        rank_of(place.drop_last(), dims.drop_last()) * dims.last() + place.last()
    }
}

/// Two tensors of one shape have the same elements.
pub open spec fn same_elements(e: Elements, left: Tensor, right: Tensor) -> bool {
    &&& tensors::tensor_dims(left) == tensors::tensor_dims(right)
    &&& forall|place: Seq<int>|
        within(place, tensors::tensor_dims(left)) ==> #[trigger] (e.at)(left, place) == (e.at)(
            right,
            place,
        )
}

/// A part of a tensor has the elements from `start` on.
pub open spec fn part_reads(e: Elements, t: Tensor, dim: usize, start: usize, len: usize) -> bool {
    let part = tensors::tensor_narrowed(t, dim, start, len);
    tensors::part_exists(tensors::tensor_dims(t), dim as int, start as int, len as int) ==> {
        &&& tensors::tensor_dims(part) == tensors::tensor_dims(t).update(dim as int, len)
        &&& forall|place: Seq<int>|
            within(place, tensors::tensor_dims(part)) ==> #[trigger] (e.at)(part, place) == (e.at)(
                t,
                place.update(dim as int, place[dim as int] + start),
            )
    }
}

/// A tensor without a dimension of one index has the same elements.
pub open spec fn squeezed_reads(e: Elements, t: Tensor, dim: usize) -> bool {
    let out = tensor_math::tensor_squeezed(t, dim);
    let dims = tensors::tensor_dims(t);
    dim < dims.len() ==> if dims[dim as int] == 1 {
        &&& tensors::tensor_dims(out) == dims.remove(dim as int)
        &&& forall|place: Seq<int>|
            within(place, tensors::tensor_dims(out)) ==> #[trigger] (e.at)(out, place) == (e.at)(
                t,
                place.insert(dim as int, 0),
            )
    } else {
        same_elements(e, out, t)
    }
}

/// A tensor in another shape has the same elements in the same order.
pub open spec fn reshaped_reads(e: Elements, t: Tensor, dims: Seq<usize>) -> bool {
    let out = tensor_math::tensor_reshaped(t, dims);
    tensors::dims_product(dims) == tensors::dims_product(tensors::tensor_dims(t)) ==> {
        &&& tensors::tensor_dims(out) == dims
        &&& forall|place: Seq<int>, from: Seq<int>|
            within(place, dims) && within(from, tensors::tensor_dims(t)) && rank_of(place, dims)
                == rank_of(from, tensors::tensor_dims(t)) ==> #[trigger] (e.at)(out, place)
                == #[trigger] (e.at)(t, from)
    }
}

/// Views and copies.
pub open spec fn reads_views(e: Elements) -> bool {
    &&& forall|t: Tensor, dim: usize, start: usize, len: usize| #[trigger]
        part_reads(e, t, dim, start, len)
    &&& forall|t: Tensor, dim: usize| #[trigger] squeezed_reads(e, t, dim)
    &&& forall|t: Tensor, dims: Seq<usize>| #[trigger] reshaped_reads(e, t, dims)
    &&& forall|t: Tensor| same_elements(e, #[trigger] tensors::tensor_packed(t), t)
    &&& forall|t: Tensor|
        tensors::has_elements(t) ==> same_elements(e, #[trigger] tensors::tensor_copied(t), t)
    &&& forall|t: Tensor| same_elements(e, #[trigger] draw::tensor_on_host(t), t)
}

/// All elements are this number.
pub open spec fn all_are(e: Elements, t: Tensor, dims: Seq<usize>, value: real) -> bool {
    &&& tensors::tensor_dims(t) == dims
    &&& forall|place: Seq<int>| within(place, dims) ==> #[trigger] (e.at)(t, place) == value
}

/// A tensor of given numbers has them as its elements.
pub open spec fn ids_read(e: Elements, ids: Seq<u32>, device: Device) -> bool {
    let t = tensor_math::tensor_of_ids(ids, device);
    ids.len() <= usize::MAX ==> {
        &&& tensors::tensor_dims(t) == seq![ids.len() as usize]
        &&& forall|i: int|
            0 <= i < ids.len() ==> #[trigger] e.line(t, i) == ids[i] as int as real
    }
}

/// A range has its numbers as its elements.
pub open spec fn range_reads(e: Elements, start: u32, end: u32, device: Device) -> bool {
    let t = tensor_math::tensor_range(start, end, device);
    start <= end && end - start <= usize::MAX ==> {
        &&& tensors::tensor_dims(t) == seq![(end - start) as usize]
        &&& forall|i: int|
            0 <= i < end - start ==> #[trigger] e.line(t, i) == (start + i) as real
    }
}

/// Tensors made of numbers, and conversions, which keep every number.
pub open spec fn reads_numbers(e: Elements) -> bool {
    &&& forall|ids: Seq<u32>, device: Device| #[trigger] ids_read(e, ids, device)
    &&& forall|start: u32, end: u32, device: Device| #[trigger] range_reads(e, start, end, device)
    &&& forall|value: i64, count: usize, device: Device|
        all_are(
            e,
            #[trigger] tensor_math::tensor_repeated(value, count, device),
            seq![count],
            value as int as real,
        )
    &&& forall|bits: u32, device: Device|
        all_are(
            e,
            #[trigger] tensor_math::tensor_of_single(bits, device),
            seq![1usize],
            (e.single)(bits),
        )
    &&& forall|bits: u64, device: Device|
        all_are(
            e,
            #[trigger] tensor_math::tensor_of_double(bits, device),
            Seq::empty(),
            (e.double)(bits),
        )
    &&& forall|dims: Seq<usize>, dtype: DType, device: Device|
        all_are(e, #[trigger] tensors::tensor_of_zeros(dims, dtype, device), dims, 0 as real)
    &&& forall|t: Tensor|
        all_are(
            e,
            #[trigger] tensor_math::tensor_zeros_like(t),
            tensors::tensor_dims(t),
            0 as real,
        )
    &&& forall|t: Tensor|
        all_are(e, #[trigger] tensor_math::tensor_cleared(t), tensors::tensor_dims(t), 0 as real)
    &&& forall|t: Tensor| same_elements(e, #[trigger] tensor_math::tensor_as_single(t), t)
    &&& forall|t: Tensor| same_elements(e, #[trigger] tensor_math::tensor_as_double(t), t)
    &&& forall|t: Tensor, dtype: DType|
        same_elements(e, #[trigger] tensor_math::tensor_converted(t, dtype), t)
}

/// A truth value as an element.
pub open spec fn flag(yes: bool) -> real {
    if yes {
        1 as real
    } else {
        0 as real
    }
}

/// The single element of a tensor with no dimension, or with one of one index.
pub open spec fn only(e: Elements, t: Tensor) -> real {
    if tensors::tensor_dims(t).len() == 0 {
        (e.at)(t, Seq::empty())
    } else {
        e.line(t, 0int)
    }
}

/// `out` has the shape of `t`, and at each place `value` of that place.
pub open spec fn each_is(
    e: Elements,
    out: Tensor,
    dims: Seq<usize>,
    value: spec_fn(Seq<int>) -> real,
) -> bool {
    &&& tensors::tensor_dims(out) == dims
    &&& forall|place: Seq<int>| within(place, dims) ==> #[trigger] (e.at)(out, place) == value(place)
}

/// Operations on two tensors of one shape, place by place.
pub open spec fn pair_reads(e: Elements, l: Tensor, r: Tensor) -> bool {
    let dims = tensors::tensor_dims(l);
    tensors::tensor_dims(r) == dims ==> {
        &&& each_is(
            e,
            tensor_math::tensor_ge(l, r),
            dims,
            |place: Seq<int>| flag((e.at)(l, place) >= (e.at)(r, place)),
        )
        &&& each_is(
            e,
            tensor_math::tensor_gt(l, r),
            dims,
            |place: Seq<int>| flag((e.at)(l, place) > (e.at)(r, place)),
        )
        &&& each_is(
            e,
            tensor_math::tensor_sum(l, r),
            dims,
            |place: Seq<int>| (e.at)(l, place) + (e.at)(r, place),
        )
        &&& each_is(
            e,
            tensor_math::tensor_difference(l, r),
            dims,
            |place: Seq<int>| (e.at)(l, place) - (e.at)(r, place),
        )
    }
}

/// Operations of a tensor with a single number.
pub open spec fn scaled_reads(e: Elements, l: Tensor, r: Tensor) -> bool {
    let dims = tensors::tensor_dims(l);
    tensor_math::scales(l, r) ==> {
        &&& each_is(
            e,
            tensor_math::tensor_product(l, r),
            dims,
            |place: Seq<int>| (e.at)(l, place) * only(e, r),
        )
        &&& each_is(
            e,
            tensor_math::tensor_le(l, r),
            dims,
            |place: Seq<int>| flag((e.at)(l, place) <= only(e, r)),
        )
    }
}

/// A choice between two tensors of one shape takes the first where the mask is not zero.
pub open spec fn choice_reads(e: Elements, mask: Tensor, yes: Tensor, no: Tensor) -> bool {
    let dims = tensors::tensor_dims(mask);
    tensors::tensor_dims(yes) == dims && tensors::tensor_dims(no) == dims ==> each_is(
        e,
        tensor_math::tensor_where(mask, yes, no),
        dims,
        |place: Seq<int>|
            if (e.at)(mask, place) != 0 as real {
                (e.at)(yes, place)
            } else {
                (e.at)(no, place)
            },
    )
}

/// Functions of each element.
pub open spec fn mapped_reads(e: Elements, t: Tensor) -> bool {
    let dims = tensors::tensor_dims(t);
    &&& each_is(
        e,
        tensor_math::tensor_reciprocal(t),
        dims,
        |place: Seq<int>| (1 as real) / (e.at)(t, place),
    )
    &&& each_is(e, tensor_math::tensor_log(t), dims, |place: Seq<int>| (e.ln)((e.at)(t, place)))
    &&& each_is(
        e,
        tensor_math::tensor_negated(t),
        dims,
        |place: Seq<int>| (0 as real) - (e.at)(t, place),
    )
}

/// The weight of element `i` of a line in a softmax.
pub open spec fn weight(e: Elements, t: Tensor, i: int) -> real {
    (e.exp)(e.line(t, i))
}

/// The softmax of a line gives each element its share of all weights.
pub open spec fn softmax_reads(e: Elements, t: Tensor) -> bool {
    let dims = tensors::tensor_dims(t);
    dims.len() == 1 ==> {
        &&& tensors::tensor_dims(tensor_math::tensor_softmax(t)) == dims
        &&& forall|i: int|
            0 <= i < dims[0] ==> #[trigger] e.line(tensor_math::tensor_softmax(t), i)
                == weight(e, t, i) / total(|j: int| weight(e, t, j), dims[0] as int)
    }
}

/// The product of two matrices adds up products along rows and columns.
pub open spec fn matmul_reads(e: Elements, l: Tensor, r: Tensor) -> bool {
    let a = tensors::tensor_dims(l);
    let b = tensors::tensor_dims(r);
    a.len() == 2 && b.len() == 2 && a[1] == b[0] ==> {
        &&& tensors::tensor_dims(tensor_math::tensor_matmul(l, r)) == seq![a[0], b[1]]
        &&& forall|i: int, j: int|
            0 <= i < a[0] && 0 <= j < b[1] ==> #[trigger] e.cell(tensor_math::tensor_matmul(l, r), i, j) == total(
                |m: int| e.cell(l, i, m) * e.cell(r, m, j),
                a[1] as int,
            )
    }
}

/// Arithmetic without rounding.
pub open spec fn computes_exactly(e: Elements) -> bool {
    &&& forall|l: Tensor, r: Tensor| #[trigger] pair_reads(e, l, r)
    &&& forall|l: Tensor, r: Tensor| #[trigger] scaled_reads(e, l, r)
    &&& forall|mask: Tensor, yes: Tensor, no: Tensor| #[trigger] choice_reads(e, mask, yes, no)
    &&& forall|t: Tensor| #[trigger] mapped_reads(e, t)
    &&& forall|t: Tensor| #[trigger] softmax_reads(e, t)
    &&& forall|l: Tensor, r: Tensor| #[trigger] matmul_reads(e, l, r)
    &&& (e.double)(floats::DOUBLE_ONE) == 1 as real
    &&& (e.single)(floats::SINGLE_ONE) == 1 as real
}

/// A line has, at each index of another, what the first has there.
pub open spec fn gathered_reads(e: Elements, t: Tensor, indices: Tensor) -> bool {
    let out = tensor_math::tensor_gathered(t, indices);
    let dims = tensors::tensor_dims(t);
    let size = tensors::tensor_dims(indices);
    dims.len() == 1 && size.len() == 1 ==> {
        &&& tensors::tensor_dims(out) == size
        &&& forall|i: int, from: int|
            0 <= i < size[0] && 0 <= from < dims[0] && e.line(indices, i) == from as real
                ==> #[trigger] e.line(out, i) == #[trigger] e.line(t, from)
    }
}

/// Index `to` is not among these indices.
pub open spec fn untouched(e: Elements, indices: Tensor, to: int) -> bool {
    forall|i: int|
        0 <= i < tensors::tensor_dims(indices)[0] ==> #[trigger] e.line(indices, i)
            != to as real
}

/// Index `to` stands at place `i` of these indices, and nowhere else.
pub open spec fn touched_once(e: Elements, indices: Tensor, i: int, to: int) -> bool {
    &&& 0 <= i < tensors::tensor_dims(indices)[0]
    &&& e.line(indices, i) == to as real
    &&& forall|j: int|
        0 <= j < tensors::tensor_dims(indices)[0] && j != i ==> #[trigger] e.line(indices, j)
            != to as real
}

/// Elements written to a line stand at their indices, and the others stay.
pub open spec fn scattered_reads(e: Elements, t: Tensor, indices: Tensor, elements: Tensor) -> bool {
    let out = tensor_math::tensor_scattered(t, t, indices, elements);
    let dims = tensors::tensor_dims(t);
    dims.len() == 1 && tensors::tensor_dims(indices).len() == 1 && tensors::tensor_dims(elements)
        == tensors::tensor_dims(indices) ==> {
        &&& tensors::tensor_dims(out) == dims
        &&& forall|to: int|
            0 <= to < dims[0] && untouched(e, indices, to) ==> #[trigger] e.line(out, to)
                == e.line(t, to)
        &&& forall|i: int, to: int|
            0 <= to < dims[0] && #[trigger] touched_once(e, indices, i, to) ==> e.line(out, to) == e.line(elements, i)
    }
}

/// Elements written to a row of a batch stand at their indices of that row; the others stay, and
/// so do the other rows.
pub open spec fn scattered_row_reads(
    e: Elements,
    t: Tensor,
    row: usize,
    indices: Tensor,
    elements: Tensor,
) -> bool {
    let view = tensor_math::tensor_squeezed(tensors::tensor_narrowed(t, 0, row, 1), 0);
    let out = tensor_math::tensor_scattered(t, view, indices, elements);
    let dims = tensors::tensor_dims(t);
    dims.len() == 2 && row < dims[0] && tensors::tensor_dims(indices).len() == 1
        && tensors::tensor_dims(elements) == tensors::tensor_dims(indices) ==> {
        &&& tensors::tensor_dims(out) == dims
        &&& forall|r: int, to: int|
            0 <= r < dims[0] && 0 <= to < dims[1] && (r != row || untouched(e, indices, to))
                ==> #[trigger] e.cell(out, r, to) == e.cell(t, r, to)
        &&& forall|i: int, to: int|
            0 <= to < dims[1] && #[trigger] touched_once(e, indices, i, to) ==> e.cell(out, row as int, to) == e.line(elements, i)
    }
}

/// No element along the last dimension is larger than the one at `best`, and none before it is as
/// large.
pub open spec fn is_largest(e: Elements, t: Tensor, place: Seq<int>, best: int) -> bool {
    let last = tensors::tensor_dims(t).last();
    &&& 0 <= best < last
    &&& forall|j: int|
        0 <= j < last ==> #[trigger] (e.at)(t, place.push(j)) <= (e.at)(t, place.push(best))
    &&& forall|j: int|
        0 <= j < best ==> #[trigger] (e.at)(t, place.push(j)) < (e.at)(t, place.push(best))
}

/// The index of the largest element along the last dimension is found.
pub open spec fn largest_reads(e: Elements, t: Tensor) -> bool {
    let out = tensor_math::tensor_argmax(t);
    let dims = tensors::tensor_dims(t);
    dims.len() > 0 && tensors::has_elements(t) ==> {
        &&& tensors::tensor_dims(out) == dims.drop_last()
        &&& forall|place: Seq<int>|
            within(place, dims.drop_last()) ==> exists|best: int|
                (#[trigger] (e.at)(out, place)) == best as real && #[trigger] is_largest(
                    e,
                    t,
                    place,
                    best,
                )
    }
}

/// Elements are found and moved as they are.
pub open spec fn finds(e: Elements) -> bool {
    &&& forall|t: Tensor, indices: Tensor| #[trigger] gathered_reads(e, t, indices)
    &&& forall|t: Tensor, indices: Tensor, elements: Tensor| #[trigger]
        scattered_reads(e, t, indices, elements)
    &&& forall|t: Tensor, row: usize, indices: Tensor, elements: Tensor| #[trigger]
        scattered_row_reads(e, t, row, indices, elements)
    &&& forall|t: Tensor| #[trigger] largest_reads(e, t)
}

/// The reading is exact.
pub open spec fn exact(e: Elements) -> bool {
    reads_views(e) && reads_numbers(e) && computes_exactly(e) && finds(e)
}

/// A tensor with a part replaced has the new elements in that part, and its own elsewhere.
pub open spec fn overwritten_reads(
    e: Elements,
    t: Tensor,
    part: Tensor,
    dim: usize,
    start: usize,
) -> bool {
    let out = tensors::tensor_overwritten(t, part, dim, start);
    let dims = tensors::tensor_dims(t);
    let size = tensors::tensor_dims(part);
    dim < dims.len() && size == dims.update(dim as int, size[dim as int]) && start + size[dim as int]
        <= dims[dim as int] ==> {
        &&& tensors::tensor_dims(out) == dims
        &&& forall|place: Seq<int>|
            within(place, dims) ==> #[trigger] (e.at)(out, place) == if start <= place[dim as int]
                < start + size[dim as int] {
                (e.at)(part, place.update(dim as int, place[dim as int] - start))
            } else {
                (e.at)(t, place)
            }
    }
}

/// Replacing a part of a tensor.
pub open spec fn overwrites(e: Elements) -> bool {
    forall|t: Tensor, part: Tensor, dim: usize, start: usize| #[trigger]
        overwritten_reads(e, t, part, dim, start)
}

} // verus!
