//! Addresses inside pages and inside right-aligned head-major batches.
use super::layout::PagedKvLayout;
use crate::arith;
use vstd::prelude::*;

verus! {

/// `value` is what `T::default()` may return.
pub open spec fn is_default<T: Default>(value: T) -> bool {
    call_ensures(T::default, (), value)
}

/// `base` with `run` written over it from `at` on.
pub open spec fn overlaid<T>(base: Seq<T>, at: int, run: Seq<T>) -> Seq<T> {
    Seq::new(
        base.len(),
        |i: int|
            if at <= i < at + run.len() {
                run[i - at]
            } else {
                base[i]
            },
    )
}

/// A vector of `len` copies of `value`.
pub fn filled<T: Copy>(value: T, len: usize) -> (result: Vec<T>)
    ensures
        result@.len() == len,
        forall|i: int| 0 <= i < len ==> #[trigger] result@[i] == value,
{
    let mut result: Vec<T> = Vec::with_capacity(len);
    let mut i: usize = 0;
    while i < len
        invariant
            i <= len,
            result@.len() == i,
            forall|j: int| 0 <= j < i ==> #[trigger] result@[j] == value,
        decreases len - i,
    {
        result.push(value);
        i = i + 1;
    }
    result
}

/// Copies `len` values of `source` from `from` on over `target` from `at` on.
pub fn put_run<T: Copy>(target: &mut Vec<T>, at: usize, source: &[T], from: usize, len: usize)
    requires
        at + len <= old(target)@.len(),
        from + len <= source@.len(),
    ensures
        final(target)@ == overlaid(
            old(target)@,
            at as int,
            source@.subrange(from as int, from + len),
        ),
{
    let ghost before = target@;
    let target_len: usize = target.len();
    let source_len: usize = source.len();
    let mut i: usize = 0;
    while i < len
        invariant
            i <= len,
            before.len() == target_len,
            source@.len() == source_len,
            at + len <= target_len,
            from + len <= source_len,
            target@ =~= overlaid(before, at as int, source@.subrange(from as int, from + i)),
        decreases len - i,
    {
        target.set(at + i, source[from + i]);
        i = i + 1;
    }
}

impl PagedKvLayout {
    /// Number of a token slot within a page: layers first, then planes, then tokens.
    pub open spec fn slot_number(&self, block_size: int, layer: int, plane: int, offset: int) -> int {
        (layer * 2 + plane) * block_size + offset
    }

    /// Where in a page the values of one head of one token begin.
    pub open spec fn page_offset(
        &self,
        block_size: int,
        layer: int,
        plane: int,
        offset: int,
        head: int,
    ) -> int {
        layer * (2 * (block_size * self.width())) + plane * (block_size * self.width()) + offset
            * self.width() + head * self.head_dim
    }

    /// Pages of this layout can be indexed on this machine.
    pub open spec fn addressable(&self, block_size: int) -> bool {
        &&& self.width() <= usize::MAX
        &&& self.num_layers * 2 <= usize::MAX
        &&& self.num_layers * 2 * block_size <= usize::MAX
        &&& self.page_len(block_size) <= usize::MAX
    }

    /// Number of the cell of one head and one position in a batch row.
    pub open spec fn cell(&self, max_len: int, row: int, head: int, position: int) -> int {
        (row * self.num_kv_heads + head) * max_len + position
    }

    /// Values in one row of a batch of width `max_len`.
    pub open spec fn row_stride(&self, max_len: int) -> int {
        self.num_kv_heads * max_len * self.head_dim
    }

    /// A batch of `rows` rows of width `max_len` can be indexed on this machine.
    pub open spec fn batch_addressable(&self, rows: int, max_len: int) -> bool {
        &&& self.num_kv_heads * max_len <= usize::MAX
        &&& self.row_stride(max_len) <= usize::MAX
        &&& rows * self.row_stride(max_len) <= usize::MAX
    }
}

/// A token slot starts at its number times the token width and lies within the page.
pub proof fn lemma_page_offset(
    layout: PagedKvLayout,
    block_size: int,
    layer: int,
    plane: int,
    offset: int,
)
    requires
        0 <= layer < layout.num_layers,
        0 <= plane < 2,
        0 <= offset < block_size,
    ensures
        layout.page_offset(block_size, layer, plane, offset, 0) == layout.slot_number(
            block_size,
            layer,
            plane,
            offset,
        ) * layout.width(),
        0 <= layout.page_offset(block_size, layer, plane, offset, 0),
        layout.page_offset(block_size, layer, plane, offset, 0) + layout.width()
            <= layout.page_len(block_size),
        0 <= layer * (2 * (block_size * layout.width())) <= layout.page_len(block_size),
        0 <= plane * (block_size * layout.width()),
        0 <= offset * layout.width(),
        2 * (block_size * layout.width()) <= layout.page_len(block_size),
{
    let w = layout.width();
    let n = layout.num_layers as int;
    assert(w >= 0) by (nonlinear_arith)
        requires
            w == layout.num_kv_heads * layout.head_dim,
    ;
    let s = layout.slot_number(block_size, layer, plane, offset);
    arith::lemma_radix_bound(layer, plane, n, 2);
    arith::lemma_radix_bound(layer * 2 + plane, offset, n * 2, block_size);
    let total = (n * 2) * block_size;
    assert(0 <= s < total);
    let plane_values = block_size * w;
    let unit = layer * 2 + plane;
    assert((unit * block_size + offset) * w == (unit * block_size) * w + offset * w)
        by (nonlinear_arith);
    vstd::arithmetic::mul::lemma_mul_is_associative(unit, block_size, w);
    assert(unit * plane_values == layer * (2 * plane_values) + plane * plane_values)
        by (nonlinear_arith)
        requires
            unit == layer * 2 + plane,
    ;
    vstd::arithmetic::mul::lemma_mul_is_associative(n * 2, block_size, w);
    vstd::arithmetic::mul::lemma_mul_is_associative(n, 2, plane_values);
    assert(layout.page_len(block_size) == total * w);
    assert(s * w + w <= total * w && 0 <= s * w) by (nonlinear_arith)
        requires
            0 <= s,
            s + 1 <= total,
            w >= 0,
    ;
    assert(0 * layout.head_dim == 0);
    assert(0 <= layer * (2 * (block_size * w))) by (nonlinear_arith)
        requires
            layer >= 0,
            block_size > 0,
            w >= 0,
    ;
    assert(0 <= plane * (block_size * w)) by (nonlinear_arith)
        requires
            plane >= 0,
            block_size > 0,
            w >= 0,
    ;
    assert(0 <= offset * w) by (nonlinear_arith)
        requires
            offset >= 0,
            w >= 0,
    ;
    assert(layer * (2 * (block_size * w)) <= n * (2 * (block_size * w)) && 2 * (block_size * w) <= n
        * (2 * (block_size * w))) by (nonlinear_arith)
        requires
            layer <= n,
            1 <= n,
            block_size > 0,
            w >= 0,
    ;
}

/// Different token slots of a page do not overlap.
pub proof fn lemma_slots_apart(
    layout: PagedKvLayout,
    block_size: int,
    layer: int,
    plane: int,
    offset: int,
    layer2: int,
    plane2: int,
    offset2: int,
)
    requires
        0 <= layer < layout.num_layers,
        0 <= layer2 < layout.num_layers,
        0 <= plane < 2,
        0 <= plane2 < 2,
        0 <= offset < block_size,
        0 <= offset2 < block_size,
        layer != layer2 || plane != plane2 || offset != offset2,
    ensures
        ({
            let a = layout.page_offset(block_size, layer, plane, offset, 0);
            let b = layout.page_offset(block_size, layer2, plane2, offset2, 0);
            a + layout.width() <= b || b + layout.width() <= a
        }),
{
    let w = layout.width();
    lemma_page_offset(layout, block_size, layer, plane, offset);
    lemma_page_offset(layout, block_size, layer2, plane2, offset2);
    let s = layout.slot_number(block_size, layer, plane, offset);
    let t = layout.slot_number(block_size, layer2, plane2, offset2);
    if s == t {
        arith::lemma_radix(
            layer * 2 + plane,
            offset,
            layer2 * 2 + plane2,
            offset2,
            block_size,
        );
        arith::lemma_radix(layer, plane, layer2, plane2, 2);
    }
    assert(w >= 0) by (nonlinear_arith)
        requires
            w == layout.num_kv_heads * layout.head_dim,
    ;
    if s < t {
        assert(s * w + w <= t * w) by (nonlinear_arith)
            requires
                s + 1 <= t,
                w >= 0,
        ;
    } else {
        assert(t * w + w <= s * w) by (nonlinear_arith)
            requires
                t + 1 <= s,
                w >= 0,
        ;
    }
}

/// A cell begins at its number times the head size and lies within the batch.
pub proof fn lemma_cell(
    layout: PagedKvLayout,
    rows: int,
    max_len: int,
    row: int,
    head: int,
    position: int,
)
    requires
        0 <= row < rows,
        0 <= head < layout.num_kv_heads,
        0 <= position < max_len,
    ensures
        row * layout.row_stride(max_len) + head * max_len * layout.head_dim + position
            * layout.head_dim == layout.cell(max_len, row, head, position) * layout.head_dim,
        0 <= layout.cell(max_len, row, head, position) * layout.head_dim,
        layout.cell(max_len, row, head, position) * layout.head_dim + layout.head_dim <= rows
            * layout.row_stride(max_len),
        0 <= row * layout.row_stride(max_len) <= rows * layout.row_stride(max_len),
        0 <= head * max_len <= layout.num_kv_heads * max_len,
        0 <= head * max_len * layout.head_dim <= layout.row_stride(max_len),
        0 <= position * layout.head_dim <= layout.row_stride(max_len),
{
    let h = layout.num_kv_heads as int;
    let d = layout.head_dim as int;
    let stride = layout.row_stride(max_len);
    let c = layout.cell(max_len, row, head, position);
    arith::lemma_radix_bound(row, head, rows, h);
    arith::lemma_radix_bound(row * h + head, position, rows * h, max_len);
    let per_head = max_len * d;
    vstd::arithmetic::mul::lemma_mul_is_associative(h, max_len, d);
    vstd::arithmetic::mul::lemma_mul_is_associative(head, max_len, d);
    vstd::arithmetic::mul::lemma_mul_is_associative(row * h + head, max_len, d);
    vstd::arithmetic::mul::lemma_mul_is_associative(row, h, per_head);
    assert((row * h + head) * per_head == (row * h) * per_head + head * per_head)
        by (nonlinear_arith);
    assert(((row * h + head) * max_len + position) * d == ((row * h + head) * max_len) * d
        + position * d) by (nonlinear_arith);
    let total = (rows * h) * max_len;
    vstd::arithmetic::mul::lemma_mul_is_associative(rows * h, max_len, d);
    vstd::arithmetic::mul::lemma_mul_is_associative(rows, h, per_head);
    assert(0 <= c * d && c * d + d <= total * d) by (nonlinear_arith)
        requires
            0 <= c,
            c + 1 <= total,
            d >= 0,
    ;
    assert(0 <= head * max_len <= h * max_len) by (nonlinear_arith)
        requires
            0 <= head <= h,
            max_len >= 0,
    ;
    assert(0 <= head * max_len * d <= h * max_len * d) by (nonlinear_arith)
        requires
            0 <= head * max_len <= h * max_len,
            d >= 0,
    ;
    assert(position <= h * max_len) by (nonlinear_arith)
        requires
            0 <= position < max_len,
            h >= 1,
    ;
    assert(0 <= position * d <= h * max_len * d) by (nonlinear_arith)
        requires
            0 <= position <= h * max_len,
            d >= 0,
    ;
    assert(0 <= row * stride <= rows * stride) by (nonlinear_arith)
        requires
            0 <= row <= rows,
            stride >= 0,
    ;
}

/// Different cells of a batch do not overlap.
pub proof fn lemma_cells_apart(
    layout: PagedKvLayout,
    max_len: int,
    row: int,
    head: int,
    position: int,
    row2: int,
    head2: int,
    position2: int,
)
    requires
        0 <= head < layout.num_kv_heads,
        0 <= head2 < layout.num_kv_heads,
        0 <= position < max_len,
        0 <= position2 < max_len,
        row != row2 || head != head2 || position != position2,
    ensures
        ({
            let a = layout.cell(max_len, row, head, position) * layout.head_dim;
            let b = layout.cell(max_len, row2, head2, position2) * layout.head_dim;
            a + layout.head_dim <= b || b + layout.head_dim <= a
        }),
{
    let h = layout.num_kv_heads as int;
    let d = layout.head_dim as int;
    let s = layout.cell(max_len, row, head, position);
    let t = layout.cell(max_len, row2, head2, position2);
    if s == t {
        arith::lemma_radix(row * h + head, position, row2 * h + head2, position2, max_len);
        arith::lemma_radix(row, head, row2, head2, h);
    }
    if s < t {
        assert(s * d + d <= t * d) by (nonlinear_arith)
            requires
                s + 1 <= t,
                d >= 0,
        ;
    } else {
        assert(t * d + d <= s * d) by (nonlinear_arith)
            requires
                t + 1 <= s,
                d >= 0,
        ;
    }
}

/// The values of one token in a head-major buffer of `token_len` tokens, head after head.
pub open spec fn token_run<T>(
    layout: PagedKvLayout,
    values: Seq<T>,
    token_len: int,
    token: int,
) -> Seq<T> {
    Seq::new(
        layout.width() as nat,
        |x: int|
            values[(x / layout.head_dim as int) * token_len * layout.head_dim + token
                * layout.head_dim + x % layout.head_dim as int],
    )
}

/// The values of one head of one token in a head-major buffer.
pub open spec fn head_run<T>(
    layout: PagedKvLayout,
    values: Seq<T>,
    token_len: int,
    head: int,
    token: int,
) -> Seq<T> {
    values.subrange(
        head * token_len * layout.head_dim + token * layout.head_dim,
        head * token_len * layout.head_dim + token * layout.head_dim + layout.head_dim,
    )
}

/// A head's values of one token lie within the buffer, and are its part of the token's run.
pub proof fn lemma_head_run<T>(
    layout: PagedKvLayout,
    values: Seq<T>,
    token_len: int,
    head: int,
    token: int,
)
    requires
        0 <= token < token_len,
        0 <= head < layout.num_kv_heads,
        values.len() == token_len * layout.width(),
    ensures
        0 <= head * token_len <= layout.num_kv_heads * token_len,
        0 <= head * token_len * layout.head_dim <= values.len(),
        0 <= token * layout.head_dim <= values.len(),
        head * token_len * layout.head_dim + token * layout.head_dim + layout.head_dim
            <= values.len(),
        0 <= head * layout.head_dim,
        head * layout.head_dim + layout.head_dim <= layout.width(),
        token_run(layout, values, token_len, token).subrange(
            head * layout.head_dim,
            head * layout.head_dim + layout.head_dim,
        ) == head_run(layout, values, token_len, head, token),
{
    let h = layout.num_kv_heads as int;
    let d = layout.head_dim as int;
    let w = layout.width();
    arith::lemma_radix_bound(head, token, h, token_len);
    assert(values.len() == (h * token_len) * d) by (nonlinear_arith)
        requires
            values.len() == token_len * (h * d),
    ;
    assert(head * token_len * d + token * d == (head * token_len + token) * d) by (nonlinear_arith);
    assert((head * token_len + token) * d + d <= (h * token_len) * d) by (nonlinear_arith)
        requires
            head * token_len + token + 1 <= h * token_len,
            d >= 0,
    ;
    assert(0 <= head * token_len * d) by (nonlinear_arith)
        requires
            0 <= head * token_len,
            d >= 0,
    ;
    assert(0 <= token * d) by (nonlinear_arith)
        requires
            0 <= token,
            d >= 0,
    ;
    assert(head * token_len <= h * token_len) by (nonlinear_arith)
        requires
            head <= h,
            token_len >= 0,
    ;
    assert(head * d + d <= h * d && 0 <= head * d) by (nonlinear_arith)
        requires
            0 <= head,
            head + 1 <= h,
            d >= 0,
    ;
    let part = token_run(layout, values, token_len, token).subrange(head * d, head * d + d);
    let direct = head_run(layout, values, token_len, head, token);
    assert forall|i: int| 0 <= i < d implies part[i] == direct[i] by {
        let x = head * d + i;
        vstd::arithmetic::div_mod::lemma_fundamental_div_mod_converse(x, d, head, i);
        assert(x / d == head && x % d == i);
    }
    assert(part =~= direct);
}

/// What the cell of one head at one position holds in a row of `len` right-aligned tokens.
pub open spec fn cell_holds<T: Default>(
    layout: PagedKvLayout,
    out: Seq<T>,
    at: int,
    padded: bool,
    run: Seq<T>,
) -> bool {
    if padded {
        forall|i: int| at <= i < at + layout.head_dim ==> is_default(#[trigger] out[i])
    } else {
        out.subrange(at, at + layout.head_dim) == run
    }
}

/// `out` is a batch of `rows` rows of width `max_len`: row `r` ends with `len_of(r)` tokens,
/// `run_of(r, h, t)` being head `h` of token `t`, and has default values before them.
pub open spec fn right_aligned<T: Default>(
    layout: PagedKvLayout,
    max_len: int,
    rows: int,
    out: Seq<T>,
    len_of: spec_fn(int) -> int,
    run_of: spec_fn(int, int, int) -> Seq<T>,
) -> bool {
    &&& out.len() == rows * layout.row_stride(max_len)
    &&& forall|row: int, head: int, position: int|
        #![trigger layout.cell(max_len, row, head, position)]
        0 <= row < rows && 0 <= head < layout.num_kv_heads && 0 <= position < max_len
            ==> cell_holds(
            layout,
            out,
            layout.cell(max_len, row, head, position) * layout.head_dim,
            position < max_len - len_of(row),
            run_of(row, head, position - (max_len - len_of(row))),
        )
}

/// A batch under construction: rows before `row` are complete, and `row` has `tokens` tokens.
pub open spec fn right_aligned_upto<T: Default>(
    layout: PagedKvLayout,
    max_len: int,
    rows: int,
    out: Seq<T>,
    len_of: spec_fn(int) -> int,
    run_of: spec_fn(int, int, int) -> Seq<T>,
    row: int,
    tokens: int,
) -> bool {
    &&& out.len() == rows * layout.row_stride(max_len)
    &&& forall|r: int, head: int, position: int|
        #![trigger layout.cell(max_len, r, head, position)]
        0 <= r < rows && 0 <= head < layout.num_kv_heads && 0 <= position < max_len ==> cell_holds(
            layout,
            out,
            layout.cell(max_len, r, head, position) * layout.head_dim,
            position < max_len - len_of(r) || r > row || (r == row && position >= max_len - len_of(r)
                + tokens),
            run_of(r, head, position - (max_len - len_of(r))),
        )
}

/// Writes one token, head by head, into the cells of `position` in row `row`.
pub fn place_token<T: Copy + Default>(
    out: &mut Vec<T>,
    layout: PagedKvLayout,
    max_len: usize,
    rows: usize,
    row: usize,
    position: usize,
    source: &[T],
    base: usize,
    head_stride: usize,
)
    requires
        layout.batch_addressable(rows as int, max_len as int),
        old(out)@.len() == rows * layout.row_stride(max_len as int),
        row < rows,
        position < max_len,
        forall|head: int|
            0 <= head < layout.num_kv_heads ==> 0 <= #[trigger] (head * head_stride) && base + head
                * head_stride + layout.head_dim <= source@.len(),
    ensures
        final(out)@.len() == old(out)@.len(),
        forall|r: int, head: int, p: int|
            #![trigger layout.cell(max_len as int, r, head, p)]
            0 <= r < rows && 0 <= head < layout.num_kv_heads && 0 <= p < max_len ==> {
                let at = layout.cell(max_len as int, r, head, p) * layout.head_dim;
                final(out)@.subrange(at, at + layout.head_dim) == if r == row && p == position {
                    source@.subrange(
                        base + head * head_stride,
                        base + head * head_stride + layout.head_dim,
                    )
                } else {
                    old(out)@.subrange(at, at + layout.head_dim)
                }
            },
{
    let ghost before = out@;
    let source_len: usize = source.len();
    let row_stride: usize = layout.num_kv_heads * max_len * layout.head_dim;
    let mut head: usize = 0;
    while head < layout.num_kv_heads
        invariant
            head <= layout.num_kv_heads,
            layout.batch_addressable(rows as int, max_len as int),
            row_stride == layout.row_stride(max_len as int),
            out@.len() == rows * row_stride,
            before.len() == out@.len(),
            row < rows,
            position < max_len,
            source_len == source@.len(),
            forall|h: int|
                0 <= h < layout.num_kv_heads ==> 0 <= #[trigger] (h * head_stride) && base + h
                    * head_stride + layout.head_dim <= source@.len(),
            forall|r: int, h: int, p: int|
                #![trigger layout.cell(max_len as int, r, h, p)]
                0 <= r < rows && 0 <= h < layout.num_kv_heads && 0 <= p < max_len ==> {
                    let at = layout.cell(max_len as int, r, h, p) * layout.head_dim;
                    out@.subrange(at, at + layout.head_dim) == if r == row && p == position && h
                        < head {
                        source@.subrange(
                            base + h * head_stride,
                            base + h * head_stride + layout.head_dim,
                        )
                    } else {
                        before.subrange(at, at + layout.head_dim)
                    }
                },
        decreases layout.num_kv_heads - head,
    {
        let ghost held = out@;
        assert(0 <= head * head_stride);
        let from: usize = base + head * head_stride;
        proof {
            lemma_cell(
                layout,
                rows as int,
                max_len as int,
                row as int,
                head as int,
                position as int,
            );
        }
        let dst: usize = row * row_stride + head * max_len * layout.head_dim + position
            * layout.head_dim;
        put_run(out, dst, source, from, layout.head_dim);
        assert forall|r: int, h: int, p: int|
            #![trigger layout.cell(max_len as int, r, h, p)]
            0 <= r < rows && 0 <= h < layout.num_kv_heads && 0 <= p < max_len implies {
            let at = layout.cell(max_len as int, r, h, p) * layout.head_dim;
            out@.subrange(at, at + layout.head_dim) == if r == row && p == position && h < head
                + 1 {
                source@.subrange(base + h * head_stride, base + h * head_stride + layout.head_dim)
            } else {
                before.subrange(at, at + layout.head_dim)
            }
        } by {
            let at = layout.cell(max_len as int, r, h, p) * layout.head_dim;
            lemma_cell(layout, rows as int, max_len as int, r, h, p);
            if r == row && p == position && h == head {
                assert(out@.subrange(at, at + layout.head_dim) =~= source@.subrange(
                    from as int,
                    from + layout.head_dim,
                ));
            } else {
                lemma_cells_apart(
                    layout,
                    max_len as int,
                    r,
                    h,
                    p,
                    row as int,
                    head as int,
                    position as int,
                );
                assert(out@.subrange(at, at + layout.head_dim) =~= held.subrange(
                    at,
                    at + layout.head_dim,
                ));
            }
        }
        head = head + 1;
    }
}

/// Placing the next token of a row extends a batch under construction by that token.
pub proof fn lemma_token_placed<T: Default>(
    layout: PagedKvLayout,
    max_len: int,
    rows: int,
    before: Seq<T>,
    after: Seq<T>,
    len_of: spec_fn(int) -> int,
    run_of: spec_fn(int, int, int) -> Seq<T>,
    row: int,
    token: int,
)
    requires
        right_aligned_upto(layout, max_len, rows, before, len_of, run_of, row, token),
        0 <= row < rows,
        0 <= token < len_of(row) <= max_len,
        after.len() == before.len(),
        forall|r: int, head: int, p: int|
            #![trigger layout.cell(max_len, r, head, p)]
            0 <= r < rows && 0 <= head < layout.num_kv_heads && 0 <= p < max_len ==> {
                let at = layout.cell(max_len, r, head, p) * layout.head_dim;
                after.subrange(at, at + layout.head_dim) == if r == row && p == max_len - len_of(row)
                    + token {
                    run_of(row, head, token)
                } else {
                    before.subrange(at, at + layout.head_dim)
                }
            },
    ensures
        right_aligned_upto(layout, max_len, rows, after, len_of, run_of, row, token + 1),
{
    assert forall|r: int, head: int, position: int|
        #![trigger layout.cell(max_len, r, head, position)]
        0 <= r < rows && 0 <= head < layout.num_kv_heads && 0 <= position
            < max_len implies cell_holds(
        layout,
        after,
        layout.cell(max_len, r, head, position) * layout.head_dim,
        position < max_len - len_of(r) || r > row || (r == row && position >= max_len - len_of(r)
            + (token + 1)),
        run_of(r, head, position - (max_len - len_of(r))),
    ) by {
        let at = layout.cell(max_len, r, head, position) * layout.head_dim;
        lemma_cell(layout, rows, max_len, r, head, position);
        if !(r == row && position == max_len - len_of(row) + token) {
            let old_cell = before.subrange(at, at + layout.head_dim);
            let new_cell = after.subrange(at, at + layout.head_dim);
            assert(new_cell == old_cell);
            assert forall|i: int| at <= i < at + layout.head_dim implies #[trigger] after[i]
                == before[i] by {
                assert(new_cell[i - at] == old_cell[i - at]);
            }
        }
    }
}

} // verus!
