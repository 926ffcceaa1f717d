//! What reads of the page store give back of writes.
use super::allocator::PagedKvAllocator;
use super::batch;
use super::cells;
use super::layout::{PagedKvLayout, PagedKvPlane, PagedKvStorageError};
use super::ownership;
use super::sequence::PagedKvSequence;
use super::store::{self, PagedKvPageStore};
use crate::arith;
use vstd::prelude::*;

verus! {

/// A token reads back as it was written.
pub proof fn law_read_after_write<T: Copy + Default>(
    before: PagedKvPageStore<T>,
    after: PagedKvPageStore<T>,
    sequence: PagedKvSequence,
    token_index: usize,
    layer: usize,
    plane: PagedKvPlane,
    values: Seq<T>,
)
    requires
        before.wf(),
        after.layout == before.layout,
        after.block_size == before.block_size,
        values.len() <= usize::MAX,
        before.write_token_error(sequence, token_index, layer, values.len() as usize) is None,
        store::run_written(
            before.pages@,
            after.pages@,
            before.layout.page_len(before.block_size as int),
            sequence.slot(token_index as int).0,
            before.token_start(layer as int, plane, sequence.slot(token_index as int).1),
            values,
        ),
    ensures
        after.read_token_error(sequence, token_index, layer) is None,
        after.token_values(sequence, token_index as int, layer as int, plane) == values,
{
    let (id, offset) = sequence.slot(token_index as int);
    let start = before.token_start(layer as int, plane, offset);
    vstd::arithmetic::div_mod::lemma_mod_bound(token_index as int, before.block_size as int);
    cells::lemma_page_offset(
        before.layout,
        before.block_size as int,
        layer as int,
        plane.spec_index(),
        offset,
    );
    assert(after.pages@.dom().contains(id));
    let read = after.token_values(sequence, token_index as int, layer as int, plane);
    assert forall|i: int| 0 <= i < values.len() implies #[trigger] read[i] == values[i] by {
        assert(after.pages@[id]@[start + i] == values[i]);
    }
    assert(read =~= values);
}

/// Writing a token leaves every other token, layer and plane as it was.
pub proof fn law_write_keeps_the_rest<T: Copy + Default>(
    before: PagedKvPageStore<T>,
    after: PagedKvPageStore<T>,
    sequence: PagedKvSequence,
    token_index: usize,
    layer: usize,
    plane: PagedKvPlane,
    values: Seq<T>,
    other: PagedKvSequence,
    other_token: usize,
    other_layer: usize,
    other_plane: PagedKvPlane,
)
    requires
        before.wf(),
        after.wf(),
        after.layout == before.layout,
        after.block_size == before.block_size,
        values.len() <= usize::MAX,
        before.write_token_error(sequence, token_index, layer, values.len() as usize) is None,
        store::run_written(
            before.pages@,
            after.pages@,
            before.layout.page_len(before.block_size as int),
            sequence.slot(token_index as int).0,
            before.token_start(layer as int, plane, sequence.slot(token_index as int).1),
            values,
        ),
        before.read_token_error(other, other_token, other_layer) is None,
        other.slot(other_token as int) != sequence.slot(token_index as int) || other_layer != layer
            || other_plane != plane,
    ensures
        after.read_token_error(other, other_token, other_layer) is None,
        after.token_values(other, other_token as int, other_layer as int, other_plane)
            == before.token_values(other, other_token as int, other_layer as int, other_plane),
{
    let size = before.block_size as int;
    let w = before.layout.width();
    let (id, offset) = sequence.slot(token_index as int);
    let (id2, offset2) = other.slot(other_token as int);
    let start2 = before.token_start(other_layer as int, other_plane, offset2);
    vstd::arithmetic::div_mod::lemma_mod_bound(token_index as int, size);
    vstd::arithmetic::div_mod::lemma_mod_bound(other_token as int, size);
    cells::lemma_page_offset(
        before.layout,
        size,
        other_layer as int,
        other_plane.spec_index(),
        offset2,
    );
    assert(before.pages@.contains_key(id2));
    assert(after.pages@.dom().contains(id2));
    if id2 == id {
        cells::lemma_slots_apart(
            before.layout,
            size,
            layer as int,
            plane.spec_index(),
            offset,
            other_layer as int,
            other_plane.spec_index(),
            offset2,
        );
        assert forall|i: int| start2 <= i < start2 + w implies #[trigger] after.pages@[id2]@[i]
            == before.pages@[id2]@[i] by {
        }
        assert(after.pages@[id2]@.subrange(start2, start2 + w) =~= before.pages@[id2]@.subrange(
            start2,
            start2 + w,
        ));
    }
}

/// A whole layer reads back token by token, where no page backs two blocks.
pub proof fn law_layer_reads_back<T: Copy + Default>(
    before: PagedKvPageStore<T>,
    after: PagedKvPageStore<T>,
    sequence: PagedKvSequence,
    layer: usize,
    plane: PagedKvPlane,
    values: Seq<T>,
    token_index: usize,
)
    requires
        before.wf(),
        after.layout == before.layout,
        after.block_size == before.block_size,
        before.layout.num_kv_heads > 0,
        sequence.wf(),
        sequence.pages_distinct(),
        values.len() <= usize::MAX,
        before.write_layer_error(sequence, layer, values.len() as usize) is None,
        before.layer_written(
            after.pages@,
            sequence,
            layer as int,
            plane,
            values,
            sequence.token_len as int,
        ),
        token_index < sequence.token_len,
    ensures
        after.read_token_error(sequence, token_index, layer) is None,
        after.token_values(sequence, token_index as int, layer as int, plane) == cells::token_run(
            before.layout,
            values,
            sequence.token_len as int,
            token_index as int,
        ),
{
    let size = sequence.block_size as int;
    let n = sequence.token_len as int;
    let t = token_index as int;
    arith::lemma_ceil_div(n, size);
    let need = arith::ceil_div(n, size);
    assert(t / size < need);
    assert(store::last_writer(sequence, t, n)) by {
        assert forall|u: int| t < u < n implies #[trigger] sequence.slot(u) != sequence.slot(t) by {
            vstd::arithmetic::div_mod::lemma_fundamental_div_mod(t, size);
            vstd::arithmetic::div_mod::lemma_fundamental_div_mod(u, size);
            vstd::arithmetic::div_mod::lemma_div_pos_is_pos(t, size);
            vstd::arithmetic::div_mod::lemma_div_pos_is_pos(u, size);
            assert(u / size < need);
            let k = t / size;
            let l = u / size;
            if k != l {
                assert(sequence.blocks@[k].id != sequence.blocks@[l].id) by {
                    if k < l {
                        assert(sequence.blocks@[k].id != sequence.blocks@[l].id);
                    } else {
                        assert(sequence.blocks@[l].id != sequence.blocks@[k].id);
                    }
                }
            }
        }
    }
    assert(sequence.slot(t).0 == sequence.slot(t).0);
}

/// A reset page reads as defaults.
pub proof fn law_reset_reads_default<T: Copy + Default>(
    after: PagedKvPageStore<T>,
    sequence: PagedKvSequence,
    token_index: usize,
    layer: usize,
    plane: PagedKvPlane,
    i: int,
)
    requires
        after.wf(),
        after.read_token_error(sequence, token_index, layer) is None,
        forall|j: int|
            0 <= j < after.pages@[sequence.slot(token_index as int).0]@.len() ==> cells::is_default(
                #[trigger] after.pages@[sequence.slot(token_index as int).0]@[j],
            ),
        0 <= i < after.layout.width(),
    ensures
        cells::is_default(
            after.token_values(sequence, token_index as int, layer as int, plane)[i],
        ),
{
    let offset = sequence.slot(token_index as int).1;
    vstd::arithmetic::div_mod::lemma_mod_bound(token_index as int, after.block_size as int);
    cells::lemma_page_offset(
        after.layout,
        after.block_size as int,
        layer as int,
        plane.spec_index(),
        offset,
    );
}

/// Sequences served by one allocator never share a slot, so a batch of them goes through pages
/// unchanged.
pub proof fn law_partition_keeps_slots_distinct(
    allocator: PagedKvAllocator,
    sequences: Seq<PagedKvSequence>,
    batch: Seq<&PagedKvSequence>,
)
    requires
        ownership::pages_partitioned(allocator, sequences),
        batch.len() == sequences.len(),
        forall|i: int| 0 <= i < batch.len() ==> *#[trigger] batch[i] == sequences[i],
    ensures
        batch::slots_distinct(batch),
{
    assert forall|r: int, t: int|
        #![trigger batch[r].slot(t)]
        0 <= r < batch.len() && 0 <= t < batch[r].token_len implies batch::last_in_batch(
        batch,
        r,
        t,
        batch.len() as int,
    ) by {
        assert forall|r2: int, t2: int|
            0 <= r2 < batch.len() && 0 <= t2 < batch[r2].token_len && (r2 > r || (r2 == r && t2
                > t)) implies #[trigger] batch[r2].slot(t2) != batch[r].slot(t) by {
            ownership::law_slots_disjoint(allocator, sequences, r2, t2, r, t);
        }
    }
}

/// Every value of a batch lies in the cell of some head at some position of some row.
proof fn lemma_value_has_cell(layout: PagedKvLayout, max_len: int, rows: int, index: int) -> (cell: (
    int,
    int,
    int,
))
    requires
        0 <= index < rows * layout.row_stride(max_len),
        rows >= 0,
        max_len >= 0,
    ensures
        0 <= cell.0 < rows,
        0 <= cell.1 < layout.num_kv_heads,
        0 <= cell.2 < max_len,
        layout.cell(max_len, cell.0, cell.1, cell.2) * layout.head_dim <= index,
        index < layout.cell(max_len, cell.0, cell.1, cell.2) * layout.head_dim + layout.head_dim,
        0 <= layout.cell(max_len, cell.0, cell.1, cell.2) * layout.head_dim,
        layout.cell(max_len, cell.0, cell.1, cell.2) * layout.head_dim + layout.head_dim <= rows
            * layout.row_stride(max_len),
{
    let d = layout.head_dim as int;
    let heads = layout.num_kv_heads as int;
    let stride = layout.row_stride(max_len);
    assert(stride == heads * max_len * d);
    if d == 0 || max_len == 0 || heads == 0 || rows == 0 {
        assert(rows * (heads * max_len * d) == 0) by (nonlinear_arith)
            requires
                d == 0 || max_len == 0 || heads == 0 || rows == 0,
        ;
    }
    let number = index / d;
    let column = index % d;
    vstd::arithmetic::div_mod::lemma_fundamental_div_mod(index, d);
    let position = number % max_len;
    let line = number / max_len;
    vstd::arithmetic::div_mod::lemma_fundamental_div_mod(number, max_len);
    let head = line % heads;
    let row = line / heads;
    vstd::arithmetic::div_mod::lemma_fundamental_div_mod(line, heads);
    vstd::arithmetic::div_mod::lemma_div_pos_is_pos(index, d);
    vstd::arithmetic::div_mod::lemma_div_pos_is_pos(number, max_len);
    vstd::arithmetic::div_mod::lemma_div_pos_is_pos(line, heads);
    assert(number * d <= index) by (nonlinear_arith)
        requires
            index == d * number + column,
            column >= 0,
    ;
    assert(index < number * d + d) by (nonlinear_arith)
        requires
            index == d * number + column,
            column < d,
    ;
    assert(number == (row * heads + head) * max_len + position) by (nonlinear_arith)
        requires
            number == max_len * line + position,
            line == heads * row + head,
    ;
    if row >= rows {
        assert(line >= rows * heads) by (nonlinear_arith)
            requires
                line == heads * row + head,
                row >= rows,
                head >= 0,
                heads > 0,
        ;
        assert(number >= rows * heads * max_len) by (nonlinear_arith)
            requires
                number == max_len * line + position,
                line >= rows * heads,
                position >= 0,
                max_len > 0,
        ;
        assert(number * d >= rows * (heads * max_len * d)) by (nonlinear_arith)
            requires
                number >= rows * heads * max_len,
                d > 0,
        ;
    }
    let all = rows * heads * max_len;
    assert(rows * (heads * max_len * d) == all * d) by (nonlinear_arith)
        requires
            all == rows * heads * max_len,
    ;
    assert(number < all) by (nonlinear_arith)
        requires
            number * d < all * d,
            d > 0,
    ;
    assert(0 <= number * d && number * d + d <= all * d) by (nonlinear_arith)
        requires
            0 <= number < all,
            d > 0,
    ;
    (row, head, position)
}

/// A right-aligned batch is determined by its rows: building it directly and taking it through
/// pages give the same values, as long as there is one default value only.
pub proof fn law_right_aligned_is_unique<T: Default>(
    layout: PagedKvLayout,
    max_len: int,
    rows: int,
    left: Seq<T>,
    right: Seq<T>,
    left_len: spec_fn(int) -> int,
    right_len: spec_fn(int) -> int,
    left_run: spec_fn(int, int, int) -> Seq<T>,
    right_run: spec_fn(int, int, int) -> Seq<T>,
)
    requires
        rows >= 0,
        max_len >= 0,
        cells::right_aligned(layout, max_len, rows, left, left_len, left_run),
        cells::right_aligned(layout, max_len, rows, right, right_len, right_run),
        forall|row: int| #![trigger left_len(row)]
            0 <= row < rows ==> left_len(row) == right_len(row),
        forall|row: int, head: int, token: int| #![trigger left_run(row, head, token)]
            0 <= row < rows ==> left_run(row, head, token) == right_run(row, head, token),
        forall|a: T, b: T| #[trigger]
            cells::is_default(a) && #[trigger] cells::is_default(b) ==> a == b,
    ensures
        left == right,
{
    assert forall|index: int| 0 <= index < left.len() implies left[index] == right[index] by {
        let (row, head, position) = lemma_value_has_cell(layout, max_len, rows, index);
        let at = layout.cell(max_len, row, head, position) * layout.head_dim;
        let pad = max_len - left_len(row);
        assert(cells::cell_holds(
            layout,
            left,
            at,
            position < pad,
            left_run(row, head, position - pad),
        ));
        assert(cells::cell_holds(
            layout,
            right,
            at,
            position < pad,
            right_run(row, head, position - pad),
        ));
        if position < pad {
            assert(cells::is_default(left[index]));
            assert(cells::is_default(right[index]));
        } else {
            let a = left.subrange(at, at + layout.head_dim);
            let b = right.subrange(at, at + layout.head_dim);
            assert(a == b);
            assert(a[index - at] == left[index]);
            assert(b[index - at] == right[index]);
        }
    }
    assert(left =~= right);
}

/// A page that a write made anew reads as defaults everywhere but where it was written.
pub proof fn law_new_page_reads_default<T: Copy + Default>(
    before: PagedKvPageStore<T>,
    after: PagedKvPageStore<T>,
    sequence: PagedKvSequence,
    token_index: usize,
    layer: usize,
    plane: PagedKvPlane,
    values: Seq<T>,
    other: PagedKvSequence,
    other_token: usize,
    other_layer: usize,
    other_plane: PagedKvPlane,
    i: int,
)
    requires
        before.wf(),
        after.wf(),
        after.layout == before.layout,
        after.block_size == before.block_size,
        values.len() <= usize::MAX,
        before.write_token_error(sequence, token_index, layer, values.len() as usize) is None,
        store::run_written(
            before.pages@,
            after.pages@,
            before.layout.page_len(before.block_size as int),
            sequence.slot(token_index as int).0,
            before.token_start(layer as int, plane, sequence.slot(token_index as int).1),
            values,
        ),
        !before.pages@.contains_key(sequence.slot(token_index as int).0),
        after.slot_error(other, other_token) is None,
        after.layer_error(other_layer) is None,
        other.slot(other_token as int).0 == sequence.slot(token_index as int).0,
        other.slot(other_token as int) != sequence.slot(token_index as int) || other_layer != layer
            || other_plane != plane,
        0 <= i < after.layout.width(),
    ensures
        after.read_token_error(other, other_token, other_layer) is None,
        cells::is_default(
            after.token_values(other, other_token as int, other_layer as int, other_plane)[i],
        ),
{
    let size = before.block_size as int;
    let (id, offset) = sequence.slot(token_index as int);
    let (id2, offset2) = other.slot(other_token as int);
    let start2 = before.token_start(other_layer as int, other_plane, offset2);
    vstd::arithmetic::div_mod::lemma_mod_bound(token_index as int, size);
    vstd::arithmetic::div_mod::lemma_mod_bound(other_token as int, size);
    cells::lemma_page_offset(
        before.layout,
        size,
        other_layer as int,
        other_plane.spec_index(),
        offset2,
    );
    cells::lemma_slots_apart(
        before.layout,
        size,
        layer as int,
        plane.spec_index(),
        offset,
        other_layer as int,
        other_plane.spec_index(),
        offset2,
    );
    assert(after.pages@.dom().contains(id));
    assert(cells::is_default(after.pages@[id]@[start2 + i]));
}

/// What is gathered is what is read: in its row, after default values, each token stands head by
/// head with the values that reading it gives.
pub proof fn law_gather_is_read<T: Copy + Default>(
    store: PagedKvPageStore<T>,
    sequences: Seq<&PagedKvSequence>,
    layer: usize,
    plane: PagedKvPlane,
    max_len: usize,
    out: Seq<T>,
    row: int,
    head: int,
    position: int,
)
    requires
        store.wf(),
        store.gather_error(sequences, layer, max_len) is None,
        cells::right_aligned(
            store.layout,
            max_len as int,
            sequences.len() as int,
            out,
            |r: int| sequences[r].token_len as int,
            |r: int, h: int, t: int| store.head_values(*sequences[r], t, layer as int, plane, h),
        ),
        0 <= row < sequences.len(),
        0 <= head < store.layout.num_kv_heads,
        0 <= position < max_len,
    ensures
        ({
            let dim = store.layout.head_dim as int;
            let at = store.layout.cell(max_len as int, row, head, position) * dim;
            let token = position - (max_len - sequences[row].token_len);
            if token < 0 {
                forall|i: int| at <= i < at + dim ==> cells::is_default(#[trigger] out[i])
            } else {
                &&& store.read_token_error(*sequences[row], token as usize, layer) is None
                &&& out.subrange(at, at + dim) == store.token_values(
                    *sequences[row],
                    token,
                    layer as int,
                    plane,
                ).subrange(head * dim, head * dim + dim)
            }
        }),
{
    let dim = store.layout.head_dim as int;
    let own = *sequences[row];
    let token = position - (max_len - own.token_len);
    assert(cells::cell_holds(
        store.layout,
        out,
        store.layout.cell(max_len as int, row, head, position) * dim,
        position < max_len - own.token_len,
        store.head_values(own, token, layer as int, plane, head),
    ));
    let checks = Seq::new(
        sequences.len(),
        |r: int| store.gather_row_error(*sequences[r], max_len),
    );
    lemma_no_first_error(checks);
    assert(checks[row] is None);
    if token >= 0 {
        let tokens = Seq::new(
            own.token_len as nat,
            |t: int| store.gather_token_error(own, t),
        );
        lemma_no_first_error(tokens);
        assert(tokens[token] is None);
    }
}

proof fn lemma_no_first_error(checks: Seq<Option<PagedKvStorageError>>)
    requires
        store::first_error(checks) is None,
    ensures
        forall|i: int| 0 <= i < checks.len() ==> #[trigger] checks[i] is None,
    decreases checks.len(),
{
    if checks.len() > 0 {
        lemma_no_first_error(checks.drop_last());
        assert forall|i: int| 0 <= i < checks.len() implies #[trigger] checks[i] is None by {
            if i < checks.len() - 1 {
                assert(checks.drop_last()[i] == checks[i]);
            }
        }
    }
}

/// Taking rows through the pages of their sequences gives what packing them directly gives, as
/// long as no slot holds two tokens and there is one default value only. What can go through pages
/// can be packed.
pub proof fn law_pages_give_direct_packing<T: Copy + Default>(
    layout: PagedKvLayout,
    block_size: usize,
    sequences: Seq<&PagedKvSequence>,
    lens: Seq<usize>,
    layer: usize,
    values: Seq<Vec<T>>,
    max_len: usize,
    through_pages: Seq<T>,
    packed: Seq<T>,
)
    requires
        lens.len() == sequences.len(),
        forall|r: int| 0 <= r < lens.len() ==> #[trigger] lens[r] == sequences[r].token_len,
        batch::slots_distinct(sequences),
        forall|a: T, b: T| #[trigger]
            cells::is_default(a) && #[trigger] cells::is_default(b) ==> a == b,
        batch::via_pages_error(layout, block_size, sequences, layer, values, max_len) is None,
        cells::right_aligned(
            layout,
            max_len as int,
            sequences.len() as int,
            through_pages,
            |row: int| sequences[row].token_len as int,
            |row: int, head: int, token: int|
                cells::head_run(
                    layout,
                    values[row]@,
                    sequences[row].token_len as int,
                    head,
                    token,
                ),
        ),
        cells::right_aligned(
            layout,
            max_len as int,
            lens.len() as int,
            packed,
            |row: int| lens[row] as int,
            |row: int, head: int, token: int|
                cells::head_run(layout, values[row]@, lens[row] as int, head, token),
        ),
    ensures
        batch::build_error(layout, lens, max_len, values) is None,
        through_pages == packed,
{
    let size = if block_size == 0 {
        1
    } else {
        block_size
    };
    let written = Seq::new(
        sequences.len(),
        |r: int|
            store::layer_values_error(
                layout,
                size,
                *sequences[r],
                layer,
                values[r]@.len() as usize,
            ),
    );
    let gathered = Seq::new(
        sequences.len(),
        |r: int| batch::regather_error(layout, *sequences[r], max_len),
    );
    let checks = Seq::new(
        lens.len(),
        |r: int| batch::row_error(layout, lens[r], max_len, values[r]@.len() as usize),
    );
    lemma_no_first_error(written);
    lemma_no_first_error(gathered);
    assert forall|r: int| 0 <= r < lens.len() implies #[trigger] checks[r] is None by {
        assert(written[r] is None);
        assert(gathered[r] is None);
        assert(lens[r] == sequences[r].token_len);
        let n = lens[r] as int;
        assert(n * layout.num_kv_heads * layout.head_dim == n * layout.width())
            by (nonlinear_arith)
            requires
                layout.width() == layout.num_kv_heads * layout.head_dim,
        ;
    }
    store::lemma_first_error(checks, lens.len() as int);
    let left_len = |row: int| sequences[row].token_len as int;
    let right_len = |row: int| lens[row] as int;
    let left_run = |row: int, head: int, token: int|
        cells::head_run(layout, values[row]@, sequences[row].token_len as int, head, token);
    let right_run = |row: int, head: int, token: int|
        cells::head_run(layout, values[row]@, lens[row] as int, head, token);
    assert forall|row: int| #![trigger left_len(row)] 0 <= row < lens.len() implies left_len(row)
        == right_len(row) by {
        assert(lens[row] == sequences[row].token_len);
    }
    assert forall|row: int, head: int, token: int|
        #![trigger left_run(row, head, token)]
        0 <= row < lens.len() implies left_run(row, head, token) == right_run(
        row,
        head,
        token,
    ) by {
        assert(lens[row] == sequences[row].token_len);
    }
    law_right_aligned_is_unique(
        layout,
        max_len as int,
        lens.len() as int,
        through_pages,
        packed,
        left_len,
        right_len,
        left_run,
        right_run,
    );
}

} // verus!
