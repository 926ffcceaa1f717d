//! Right-aligned head-major batches, built directly or through pages.
use super::cells;
use super::layout::{PagedKvLayout, PagedKvPlane, PagedKvStorageError};
use super::sequence::PagedKvSequence;
use super::store::{self, PagedKvPageStore};
use vstd::prelude::*;

verus! {

/// Why a row of `len` values is not `seq_len` tokens that fit `max_len`.
pub open spec fn row_error(
    layout: PagedKvLayout,
    seq_len: usize,
    max_len: usize,
    len: usize,
) -> Option<PagedKvStorageError> {
    let expected = seq_len * layout.num_kv_heads * layout.head_dim;
    if seq_len > max_len {
        Some(PagedKvStorageError::SequenceTooLong { token_len: seq_len, max_len })
    } else if len != expected {
        Some(
            PagedKvStorageError::LayerValueLenMismatch { expected: expected as usize, actual: len },
        )
    } else {
        None
    }
}

/// Why a batch cannot be built: the number of rows, or its first bad row.
pub open spec fn build_error<T>(
    layout: PagedKvLayout,
    sequence_lens: Seq<usize>,
    max_len: usize,
    values: Seq<Vec<T>>,
) -> Option<PagedKvStorageError> {
    if values.len() != sequence_lens.len() {
        Some(
            PagedKvStorageError::SequenceCountMismatch {
                expected: sequence_lens.len() as usize,
                actual: values.len() as usize,
            },
        )
    } else {
        store::first_error(
            Seq::new(
                sequence_lens.len(),
                |r: int| row_error(layout, sequence_lens[r], max_len, values[r]@.len() as usize),
            ),
        )
    }
}

/// Copies head-major rows of different lengths into one batch of width `max_len`, each row
/// right-aligned.
pub fn build_right_aligned_head_major_batch<T: Copy + Default>(
    layout: PagedKvLayout,
    sequence_lens: &[usize],
    max_len: usize,
    values: &[Vec<T>],
) -> (result: Result<Vec<T>, PagedKvStorageError>)
    requires
        layout.batch_addressable(sequence_lens@.len() as int, max_len as int),
    ensures
        match result {
            Ok(out) => {
                &&& build_error(layout, sequence_lens@, max_len, values@) is None
                &&& cells::right_aligned(
                    layout,
                    max_len as int,
                    sequence_lens@.len() as int,
                    out@,
                    |row: int| sequence_lens@[row] as int,
                    |row: int, head: int, token: int|
                        cells::head_run(
                            layout,
                            values@[row]@,
                            sequence_lens@[row] as int,
                            head,
                            token,
                        ),
                )
            },
            Err(error) => build_error(layout, sequence_lens@, max_len, values@) == Some(error),
        },
{
    if values.len() != sequence_lens.len() {
        return Err(
            PagedKvStorageError::SequenceCountMismatch {
                expected: sequence_lens.len(),
                actual: values.len(),
            },
        );
    }
    let rows: usize = sequence_lens.len();
    let row_stride: usize = layout.num_kv_heads * max_len * layout.head_dim;
    let blank: T = T::default();
    let mut output: Vec<T> = cells::filled(blank, rows * row_stride);
    let ghost checks = Seq::new(
        sequence_lens@.len(),
        |r: int| row_error(layout, sequence_lens@[r], max_len, values@[r]@.len() as usize),
    );
    let ghost len_of = |r: int| sequence_lens@[r] as int;
    let ghost run_of = |r: int, head: int, token: int|
        cells::head_run(layout, values@[r]@, sequence_lens@[r] as int, head, token);
    proof {
        assert forall|r: int, head: int, p: int|
            #![trigger layout.cell(max_len as int, r, head, p)]
            0 <= r < rows && 0 <= head < layout.num_kv_heads && 0 <= p
                < max_len implies cells::cell_holds(
            layout,
            output@,
            layout.cell(max_len as int, r, head, p) * layout.head_dim,
            true,
            run_of(r, head, p - (max_len - len_of(r))),
        ) by {
            cells::lemma_cell(layout, rows as int, max_len as int, r, head, p);
        }
    }
    let mut row: usize = 0;
    while row < rows
        invariant
            row <= rows,
            rows == sequence_lens@.len(),
            rows == values@.len(),
            layout.batch_addressable(rows as int, max_len as int),
            checks == Seq::new(
                sequence_lens@.len(),
                |r: int| row_error(layout, sequence_lens@[r], max_len, values@[r]@.len() as usize),
            ),
            forall|r: int| 0 <= r < row ==> #[trigger] checks[r] is None,
            len_of == (|r: int| sequence_lens@[r] as int),
            run_of == (|r: int, head: int, token: int|
                cells::head_run(layout, values@[r]@, sequence_lens@[r] as int, head, token)),
            cells::right_aligned_upto(
                layout,
                max_len as int,
                rows as int,
                output@,
                len_of,
                run_of,
                row as int,
                0,
            ),
        decreases rows - row,
    {
        let seq_len: usize = sequence_lens[row];
        if seq_len > max_len {
            let error = PagedKvStorageError::SequenceTooLong { token_len: seq_len, max_len };
            assert(checks[row as int] == Some(error));
            proof {
                store::lemma_first_error(checks, row as int);
            }
            return Err(error);
        }
        proof {
            let h = layout.num_kv_heads as int;
            let d = layout.head_dim as int;
            assert(0 <= seq_len * h <= h * max_len) by (nonlinear_arith)
                requires
                    0 <= seq_len <= max_len,
                    h >= 0,
            ;
            assert(0 <= seq_len * h * d <= h * max_len * d) by (nonlinear_arith)
                requires
                    0 <= seq_len * h <= h * max_len,
                    d >= 0,
            ;
        }
        let expected: usize = seq_len * layout.num_kv_heads * layout.head_dim;
        let row_values: &Vec<T> = &values[row];
        if row_values.len() != expected {
            let error = PagedKvStorageError::LayerValueLenMismatch {
                expected,
                actual: row_values.len(),
            };
            assert(checks[row as int] == Some(error));
            proof {
                store::lemma_first_error(checks, row as int);
            }
            return Err(error);
        }
        let target_start: usize = max_len - seq_len;
        let mut token_index: usize = 0;
        while token_index < seq_len
            invariant
                token_index <= seq_len,
                seq_len <= max_len,
                target_start == max_len - seq_len,
                row < rows,
                rows == sequence_lens@.len(),
                rows == values@.len(),
                seq_len == sequence_lens@[row as int],
                *row_values == values@[row as int],
                row_values@.len() == seq_len * layout.num_kv_heads * layout.head_dim,
                layout.batch_addressable(rows as int, max_len as int),
                len_of == (|r: int| sequence_lens@[r] as int),
                run_of == (|r: int, head: int, token: int|
                    cells::head_run(layout, values@[r]@, sequence_lens@[r] as int, head, token)),
                cells::right_aligned_upto(
                    layout,
                    max_len as int,
                    rows as int,
                    output@,
                    len_of,
                    run_of,
                    row as int,
                    token_index as int,
                ),
            decreases seq_len - token_index,
        {
            let ghost before = output@;
            let total: usize = row_values.len();
            proof {
                lemma_head_sources(
                    layout,
                    row_values@,
                    seq_len as int,
                    token_index as int,
                );
            }
            if layout.num_kv_heads > 0 {
                let base: usize = token_index * layout.head_dim;
                let head_stride: usize = seq_len * layout.head_dim;
                cells::place_token(
                    &mut output,
                    layout,
                    max_len,
                    rows,
                    row,
                    target_start + token_index,
                    row_values.as_slice(),
                    base,
                    head_stride,
                );
            }
            proof {
                cells::lemma_token_placed(
                    layout,
                    max_len as int,
                    rows as int,
                    before,
                    output@,
                    len_of,
                    run_of,
                    row as int,
                    token_index as int,
                );
            }
            token_index = token_index + 1;
        }
        assert(checks[row as int] is None);
        row = row + 1;
    }
    proof {
        store::lemma_first_error(checks, rows as int);
    }
    Ok(output)
}

/// The heads of a token stand one head stride apart in a head-major row.
proof fn lemma_head_sources<T>(layout: PagedKvLayout, values: Seq<T>, seq_len: int, token: int)
    requires
        0 <= token < seq_len,
        values.len() == seq_len * layout.num_kv_heads * layout.head_dim,
    ensures
        layout.num_kv_heads > 0 ==> 0 <= token * layout.head_dim <= values.len(),
        layout.num_kv_heads > 0 ==> 0 <= seq_len * layout.head_dim <= values.len(),
        forall|head: int|
            0 <= head < layout.num_kv_heads ==> {
                &&& 0 <= #[trigger] (head * (seq_len * layout.head_dim))
                &&& token * layout.head_dim + head * (seq_len * layout.head_dim) + layout.head_dim
                    <= values.len()
                &&& cells::head_run(layout, values, seq_len, head, token) == values.subrange(
                    token * layout.head_dim + head * (seq_len * layout.head_dim),
                    token * layout.head_dim + head * (seq_len * layout.head_dim) + layout.head_dim,
                )
            },
{
    let h = layout.num_kv_heads as int;
    let d = layout.head_dim as int;
    vstd::arithmetic::mul::lemma_mul_is_associative(seq_len, h, d);
    if h > 0 {
        assert(0 <= token * d <= seq_len * d) by (nonlinear_arith)
            requires
                0 <= token <= seq_len,
                d >= 0,
        ;
        assert(seq_len * d <= seq_len * (h * d)) by (nonlinear_arith)
            requires
                seq_len >= 0,
                h >= 1,
                d >= 0,
        ;
    }
    assert forall|head: int| 0 <= head < h implies {
        &&& 0 <= #[trigger] (head * (seq_len * d))
        &&& token * d + head * (seq_len * d) + d <= values.len()
        &&& cells::head_run(layout, values, seq_len, head, token) == values.subrange(
            token * d + head * (seq_len * d),
            token * d + head * (seq_len * d) + d,
        )
    } by {
        cells::lemma_head_run(layout, values, seq_len, head, token);
        vstd::arithmetic::mul::lemma_mul_is_associative(head, seq_len, d);
    }
}

/// No token after token `token` of row `row` shares its slot, among the first `rows` rows.
pub open spec fn last_in_batch(
    sequences: Seq<&PagedKvSequence>,
    row: int,
    token: int,
    rows: int,
) -> bool {
    forall|r: int, t: int|
        0 <= r < rows && 0 <= t < sequences[r].token_len && (r > row || (r == row && t > token))
            ==> #[trigger] sequences[r].slot(t) != sequences[row].slot(token)
}

/// No slot holds two tokens of the batch.
pub open spec fn slots_distinct(sequences: Seq<&PagedKvSequence>) -> bool {
    forall|r: int, t: int|
        #![trigger sequences[r].slot(t)]
        0 <= r < sequences.len() && 0 <= t < sequences[r].token_len ==> last_in_batch(
            sequences,
            r,
            t,
            sequences.len() as int,
        )
}

/// Why a written sequence cannot be gathered again: it is too long, or, where there are no
/// heads, nothing made its first page.
pub open spec fn regather_error(
    layout: PagedKvLayout,
    sequence: PagedKvSequence,
    max_len: usize,
) -> Option<PagedKvStorageError> {
    if sequence.token_len > max_len {
        Some(
            PagedKvStorageError::SequenceTooLong { token_len: sequence.token_len, max_len },
        )
    } else if layout.num_kv_heads == 0 && sequence.token_len > 0 {
        Some(PagedKvStorageError::MissingPage { page_id: sequence.slot(0).0 })
    } else {
        None
    }
}

/// Why a batch cannot go through pages: the number of rows, the first row that cannot be
/// written, or the first that cannot be gathered.
pub open spec fn via_pages_error<T>(
    layout: PagedKvLayout,
    block_size: usize,
    sequences: Seq<&PagedKvSequence>,
    layer: usize,
    values: Seq<Vec<T>>,
    max_len: usize,
) -> Option<PagedKvStorageError> {
    let size = if block_size == 0 {
        1
    } else {
        block_size
    };
    if values.len() != sequences.len() {
        Some(
            PagedKvStorageError::SequenceCountMismatch {
                expected: sequences.len() as usize,
                actual: values.len() as usize,
            },
        )
    } else {
        match store::first_error(
            Seq::new(
                sequences.len(),
                |r: int|
                    store::layer_values_error(
                        layout,
                        size,
                        *sequences[r],
                        layer,
                        values[r]@.len() as usize,
                    ),
            ),
        ) {
            Some(error) => Some(error),
            None => if layer >= layout.num_layers {
                Some(PagedKvStorageError::InvalidLayer { layer, num_layers: layout.num_layers })
            } else {
                store::first_error(
                    Seq::new(
                        sequences.len(),
                        |r: int| regather_error(layout, *sequences[r], max_len),
                    ),
                )
            },
        }
    }
}

/// The pages of `filled` hold the first `rows` rows, the later token where two share a slot.
pub open spec fn rows_written<T: Copy + Default>(
    filled: PagedKvPageStore<T>,
    sequences: Seq<&PagedKvSequence>,
    layer: int,
    plane: PagedKvPlane,
    values: Seq<Vec<T>>,
    rows: int,
) -> bool {
    let layout = filled.layout;
    &&& forall|id: u64| #[trigger]
        filled.pages@.contains_key(id) <==> layout.num_kv_heads > 0 && exists|r: int, t: int|
            0 <= r < rows && 0 <= t < sequences[r].token_len && (#[trigger] sequences[r].slot(t)).0
                == id
    &&& forall|r: int, t: int|
        #![trigger sequences[r].slot(t)]
        0 <= r < rows && 0 <= t < sequences[r].token_len && last_in_batch(sequences, r, t, rows)
            && layout.num_kv_heads > 0 ==> filled.token_values(*sequences[r], t, layer, plane)
            == cells::token_run(layout, values[r]@, sequences[r].token_len as int, t)
}

/// What a batch that went through pages holds where head `head` of token `token` of row `row`
/// stands: the values of the last token written to its slot.
pub open spec fn came_through_pages<T>(
    layout: PagedKvLayout,
    sequences: Seq<&PagedKvSequence>,
    values: Seq<Vec<T>>,
    run_of: spec_fn(int, int, int) -> Seq<T>,
) -> bool {
    forall|row: int, token: int, head: int, r: int, t: int|
        #![trigger run_of(row, head, token), sequences[r].slot(t)]
        0 <= row < sequences.len() && 0 <= token < sequences[row].token_len && 0 <= head
            < layout.num_kv_heads && 0 <= r < sequences.len() && 0 <= t < sequences[r].token_len
            && sequences[r].slot(t) == sequences[row].slot(token) && last_in_batch(
            sequences,
            r,
            t,
            sequences.len() as int,
        ) ==> run_of(row, head, token) == cells::head_run(
            layout,
            values[r]@,
            sequences[r].token_len as int,
            head,
            t,
        )
}

/// Writes head-major rows into the pages of their sequences and gathers them again,
/// right-aligned. Where no slot holds two tokens this gives what
/// [`build_right_aligned_head_major_batch`] gives.
pub fn gather_head_major_layer_via_pages<T: Copy + Default>(
    block_size: usize,
    layout: PagedKvLayout,
    sequences: &[&PagedKvSequence],
    layer: usize,
    plane: PagedKvPlane,
    values: &[Vec<T>],
    max_len: usize,
) -> (result: Result<Vec<T>, PagedKvStorageError>)
    requires
        layout.addressable(
            if block_size == 0 {
                1
            } else {
                block_size as int
            },
        ),
        layout.batch_addressable(sequences@.len() as int, max_len as int),
        forall|r: int|
            0 <= r < sequences@.len() ==> (#[trigger] sequences@[r]).wf() && sequences@[r].token_len
                * layout.width() <= usize::MAX,
    ensures
        match result {
            Ok(out) => {
                &&& via_pages_error(layout, block_size, sequences@, layer, values@, max_len) is None
                &&& exists|run_of: spec_fn(int, int, int) -> Seq<T>|
                    {
                        &&& #[trigger] came_through_pages(layout, sequences@, values@, run_of)
                        &&& cells::right_aligned(
                            layout,
                            max_len as int,
                            sequences@.len() as int,
                            out@,
                            |row: int| sequences@[row].token_len as int,
                            run_of,
                        )
                    }
                &&& slots_distinct(sequences@) ==> cells::right_aligned(
                    layout,
                    max_len as int,
                    sequences@.len() as int,
                    out@,
                    |row: int| sequences@[row].token_len as int,
                    |row: int, head: int, token: int|
                        cells::head_run(
                            layout,
                            values@[row]@,
                            sequences@[row].token_len as int,
                            head,
                            token,
                        ),
                )
            },
            Err(error) => via_pages_error(
                layout,
                block_size,
                sequences@,
                layer,
                values@,
                max_len,
            ) == Some(error),
        },
{
    if values.len() != sequences.len() {
        return Err(
            PagedKvStorageError::SequenceCountMismatch {
                expected: sequences.len(),
                actual: values.len(),
            },
        );
    }
    let rows: usize = sequences.len();
    let mut filled = PagedKvPageStore::<T>::new(block_size, layout);
    let ghost size = filled.block_size;
    let ghost checks = Seq::new(
        sequences@.len(),
        |r: int|
            store::layer_values_error(
                layout,
                size,
                *sequences@[r],
                layer,
                values@[r]@.len() as usize,
            ),
    );
    let mut row: usize = 0;
    while row < rows
        invariant
            row <= rows,
            rows == sequences@.len(),
            rows == values@.len(),
            forall|r: int|
                0 <= r < sequences@.len() ==> (#[trigger] sequences@[r]).wf()
                    && sequences@[r].token_len * layout.width() <= usize::MAX,
            filled.wf(),
            filled.block_size == size,
            filled.layout == layout,
            checks == Seq::new(
                sequences@.len(),
                |r: int|
                    store::layer_values_error(
                        layout,
                        size,
                        *sequences@[r],
                        layer,
                        values@[r]@.len() as usize,
                    ),
            ),
            size == if block_size == 0 {
                1
            } else {
                block_size
            },
            forall|r: int| 0 <= r < row ==> #[trigger] checks[r] is None,
            forall|r: int|
                0 <= r < row ==> (#[trigger] sequences@[r]).block_size == size && layer
                    < layout.num_layers && values@[r]@.len() == sequences@[r].token_len
                    * layout.width(),
            rows_written(filled, sequences@, layer as int, plane, values@, row as int),
        decreases rows - row,
    {
        let ghost before = filled;
        assert(sequences@[row as int].wf());
        let given: usize = values[row].len();
        assert(values@[row as int]@.len() as usize == given);
        match filled.write_sequence_layer_head_major(
            sequences[row],
            layer,
            plane,
            values[row].as_slice(),
        ) {
            Ok(_) => {},
            Err(error) => {
                assert(checks[row as int] == Some(error));
                proof {
                    store::lemma_first_error(checks, row as int);
                }
                return Err(error);
            },
        }
        assert(checks[row as int] is None);
        proof {
            lemma_row_written(
                before,
                filled,
                sequences@,
                layer as int,
                plane,
                values@,
                row as int,
            );
        }
        row = row + 1;
    }
    proof {
        store::lemma_first_error(checks, rows as int);
        if layer < layout.num_layers {
            lemma_regather_errors(filled, sequences@, layer, plane, values@, max_len);
        }
    }
    let result = filled.gather_layer_right_aligned(sequences, layer, max_len, plane);
    proof {
        if result is Ok {
            let out = result->Ok_0;
            let run_of = |r: int, head: int, token: int|
                filled.head_values(*sequences@[r], token, layer as int, plane, head);
            lemma_came_through(filled, sequences@, layer as int, plane, values@);
            assert(came_through_pages(layout, sequences@, values@, run_of));
            if slots_distinct(sequences@) {
                let len_of = |r: int| sequences@[r].token_len as int;
                let direct = |r: int, head: int, token: int|
                    cells::head_run(
                        layout,
                        values@[r]@,
                        sequences@[r].token_len as int,
                        head,
                        token,
                    );
                assert forall|r: int, head: int, p: int|
                    #![trigger layout.cell(max_len as int, r, head, p)]
                    0 <= r < rows && 0 <= head < layout.num_kv_heads && 0 <= p
                        < max_len implies cells::cell_holds(
                    layout,
                    out@,
                    layout.cell(max_len as int, r, head, p) * layout.head_dim,
                    p < max_len - len_of(r),
                    direct(r, head, p - (max_len - len_of(r))),
                ) by {
                    let t = p - (max_len - len_of(r));
                    if t >= 0 {
                        assert(last_in_batch(sequences@, r, t, rows as int)) by {
                            assert(sequences@[r].slot(t) == sequences@[r].slot(t));
                        }
                        assert(run_of(r, head, t) == direct(r, head, t)) by {
                            assert(sequences@[r].slot(t) == sequences@[r].slot(t));
                        }
                    }
                }
            }
        }
    }
    result
}

/// Writing one more row.
proof fn lemma_row_written<T: Copy + Default>(
    before: PagedKvPageStore<T>,
    after: PagedKvPageStore<T>,
    sequences: Seq<&PagedKvSequence>,
    layer: int,
    plane: PagedKvPlane,
    values: Seq<Vec<T>>,
    row: int,
)
    requires
        before.wf(),
        after.wf(),
        after.layout == before.layout,
        after.block_size == before.block_size,
        0 <= row < sequences.len(),
        0 <= layer < before.layout.num_layers,
        forall|r: int| 0 <= r <= row ==> (#[trigger] sequences[r]).block_size == before.block_size,
        rows_written(before, sequences, layer, plane, values, row),
        before.layer_written(
            after.pages@,
            *sequences[row],
            layer,
            plane,
            values[row]@,
            sequences[row].token_len as int,
        ),
    ensures
        rows_written(after, sequences, layer, plane, values, row + 1),
{
    let layout = before.layout;
    let size = before.block_size as int;
    let own = *sequences[row];
    let w = layout.width();
    let n = own.token_len as int;
    if layout.num_kv_heads > 0 {
        assert forall|id: u64| #[trigger] after.pages@.contains_key(id) <==> exists|r: int, t: int|
            0 <= r < row + 1 && 0 <= t < sequences[r].token_len && (
            #[trigger] sequences[r].slot(t)).0 == id by {
            if after.pages@.contains_key(id) {
                if before.pages@.contains_key(id) {
                    let (r, t) = choose|r: int, t: int|
                        0 <= r < row && 0 <= t < sequences[r].token_len && (
                        #[trigger] sequences[r].slot(t)).0 == id;
                    assert(sequences[r].slot(t).0 == id);
                } else {
                    let t = choose|t: int| 0 <= t < n && (#[trigger] own.slot(t)).0 == id;
                    assert(sequences[row].slot(t).0 == id);
                }
            }
            if exists|r: int, t: int|
                0 <= r < row + 1 && 0 <= t < sequences[r].token_len && (
                #[trigger] sequences[r].slot(t)).0 == id {
                let (r, t) = choose|r: int, t: int|
                    0 <= r < row + 1 && 0 <= t < sequences[r].token_len && (
                    #[trigger] sequences[r].slot(t)).0 == id;
                if r == row {
                    assert(own.slot(t).0 == id);
                } else {
                    assert(before.pages@.contains_key(id));
                }
            }
        }
        assert forall|r: int, t: int|
            #![trigger sequences[r].slot(t)]
            0 <= r < row + 1 && 0 <= t < sequences[r].token_len && last_in_batch(
                sequences,
                r,
                t,
                row + 1,
            ) implies after.token_values(*sequences[r], t, layer, plane) == cells::token_run(
            layout,
            values[r]@,
            sequences[r].token_len as int,
            t,
        ) by {
            let (id, off) = sequences[r].slot(t);
            let at = before.token_start(layer, plane, off);
            assert(after.token_start(layer, plane, off) == at);
            assert(sequences[r].block_size == size);
            vstd::arithmetic::div_mod::lemma_mod_bound(t, size);
            cells::lemma_page_offset(layout, size, layer, plane.spec_index(), off);
            if r == row {
                assert(store::last_writer(own, t, n)) by {
                    assert forall|u: int| t < u < n implies #[trigger] own.slot(u) != own.slot(t) by {
                        assert(sequences[row].slot(u) != sequences[row].slot(t));
                    }
                }
                assert(own.slot(t) == (id, off));
            } else {
                assert(last_in_batch(sequences, r, t, row));
                assert(before.pages@.contains_key(id)) by {
                    assert(sequences[r].slot(t).0 == id);
                }
                assert(after.pages@.contains_key(id));
                assert forall|i: int| at <= i < at + w implies #[trigger] after.pages@[id]@[i]
                    == before.pages@[id]@[i] by {
                    assert(before.untouched(own, layer, plane, n, id, i)) by {
                        assert forall|u: int|
                            0 <= u < n && (#[trigger] own.slot(u)).0 == id implies ({
                            let start = before.token_start(layer, plane, own.slot(u).1);
                            !(start <= i < start + w)
                        }) by {
                            assert(sequences[row].slot(u) != sequences[r].slot(t));
                            vstd::arithmetic::div_mod::lemma_mod_bound(u, size);
                            assert(sequences[row].block_size == size);
                            cells::lemma_slots_apart(
                                layout,
                                size,
                                layer,
                                plane.spec_index(),
                                off,
                                layer,
                                plane.spec_index(),
                                own.slot(u).1,
                            );
                        }
                    }
                }
                assert(after.pages@[id]@.subrange(at, at + w) =~= before.pages@[id]@.subrange(
                    at,
                    at + w,
                ));
            }
        }
    }
}

/// After all rows are written, gathering fails only as `regather_error` says.
proof fn lemma_regather_errors<T: Copy + Default>(
    filled: PagedKvPageStore<T>,
    sequences: Seq<&PagedKvSequence>,
    layer: usize,
    plane: PagedKvPlane,
    values: Seq<Vec<T>>,
    max_len: usize,
)
    requires
        filled.wf(),
        layer < filled.layout.num_layers,
        forall|r: int|
            0 <= r < sequences.len() ==> (#[trigger] sequences[r]).block_size == filled.block_size
                && sequences[r].wf(),
        rows_written(filled, sequences, layer as int, plane, values, sequences.len() as int),
    ensures
        filled.gather_error(sequences, layer, max_len) == store::first_error(
            Seq::new(
                sequences.len(),
                |r: int| regather_error(filled.layout, *sequences[r], max_len),
            ),
        ),
{
    let gathered = Seq::new(
        sequences.len(),
        |r: int| filled.gather_row_error(*sequences[r], max_len),
    );
    let expected = Seq::new(
        sequences.len(),
        |r: int| regather_error(filled.layout, *sequences[r], max_len),
    );
    assert forall|r: int| 0 <= r < sequences.len() implies gathered[r] == expected[r] by {
        let own = *sequences[r];
        assert(sequences[r].wf());
        if own.token_len <= max_len {
            let checks = Seq::new(
                own.token_len as nat,
                |t: int| filled.gather_token_error(own, t),
            );
            crate::arith::lemma_ceil_div(own.token_len as int, own.block_size as int);
            assert forall|t: usize| 0 <= t < own.token_len implies (#[trigger] own.slot_error(t)) is None by {
                let block = (t as int) / (own.block_size as int);
                assert(block < crate::arith::ceil_div(own.token_len as int, own.block_size as int));
            }
            if filled.layout.num_kv_heads == 0 {
                if own.token_len > 0 {
                    assert(checks[0] == Some(
                        PagedKvStorageError::MissingPage { page_id: own.slot(0).0 },
                    )) by {
                        assert(!filled.pages@.contains_key(own.slot(0).0));
                        assert(own.slot_error(0) is None);
                    }
                    store::lemma_first_error(checks, 0);
                } else {
                    store::lemma_first_error(checks, 0);
                }
            } else {
                assert forall|t: int| 0 <= t < own.token_len implies #[trigger] checks[t] is None by {
                    assert(sequences[r].slot(t).0 == own.slot(t).0);
                    assert(filled.pages@.contains_key(own.slot(t).0));
                    assert(own.slot_error(t as usize) is None);
                }
                store::lemma_first_error(checks, own.token_len as int);
            }
        }
    }
    assert(gathered =~= expected);
}

/// Every slot holds the last token written to it.
proof fn lemma_came_through<T: Copy + Default>(
    filled: PagedKvPageStore<T>,
    sequences: Seq<&PagedKvSequence>,
    layer: int,
    plane: PagedKvPlane,
    values: Seq<Vec<T>>,
)
    requires
        forall|r: int|
            0 <= r < sequences.len() ==> values[r]@.len() == (#[trigger] sequences[r]).token_len
                * filled.layout.width(),
        rows_written(filled, sequences, layer, plane, values, sequences.len() as int),
    ensures
        came_through_pages(
            filled.layout,
            sequences,
            values,
            |r: int, head: int, token: int|
                filled.head_values(*sequences[r], token, layer, plane, head),
        ),
{
    let run_of = |r: int, head: int, token: int|
        filled.head_values(*sequences[r], token, layer, plane, head);
    assert forall|row: int, token: int, head: int, r: int, t: int|
        #![trigger run_of(row, head, token), sequences[r].slot(t)]
        0 <= row < sequences.len() && 0 <= token < sequences[row].token_len && 0 <= head
            < filled.layout.num_kv_heads && 0 <= r < sequences.len() && 0 <= t
            < sequences[r].token_len && sequences[r].slot(t) == sequences[row].slot(token)
            && last_in_batch(sequences, r, t, sequences.len() as int) implies run_of(
        row,
        head,
        token,
    ) == cells::head_run(filled.layout, values[r]@, sequences[r].token_len as int, head, t) by {
        assert(filled.token_values(*sequences[row], token, layer, plane) == filled.token_values(
            *sequences[r],
            t,
            layer,
            plane,
        ));
        cells::lemma_head_run(
            filled.layout,
            values[r]@,
            sequences[r].token_len as int,
            head,
            t,
        );
    }
}

} // verus!
