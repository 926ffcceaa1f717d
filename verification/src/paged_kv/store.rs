//! Contents of pages.
use super::cells;
use super::layout::{PagedKvLayout, PagedKvPlane, PagedKvStorageError};
use super::sequence::PagedKvSequence;
use std::collections::HashMap;
use vstd::prelude::*;

verus! {

broadcast use vstd::std_specs::hash::group_hash_axioms;

/// Pages of a layout, made when they are first written.
#[derive(Debug, Clone)]
pub struct PagedKvPageStore<T> {
    pub block_size: usize,
    pub layout: PagedKvLayout,
    pub pages: HashMap<u64, Vec<T>>,
}

/// `after` is `before` with `run` written into page `page_id` from `at` on. A page that did
/// not exist starts with default values.
pub open spec fn run_written<T: Default>(
    before: Map<u64, Vec<T>>,
    after: Map<u64, Vec<T>>,
    page_len: int,
    page_id: u64,
    at: int,
    run: Seq<T>,
) -> bool {
    &&& after.dom() == before.dom().insert(page_id)
    &&& forall|id: u64| #[trigger] before.contains_key(id) && id != page_id ==> after[id] == before[id]
    &&& after[page_id]@.len() == page_len
    &&& forall|i: int|
        0 <= i < run.len() ==> #[trigger] after[page_id]@[at + i] == run[i]
    &&& forall|i: int|
        0 <= i < page_len && !(at <= i < at + run.len()) ==> if before.contains_key(page_id) {
            #[trigger] after[page_id]@[i] == before[page_id]@[i]
        } else {
            cells::is_default(after[page_id]@[i])
        }
}

/// The first error of a list of checks.
pub open spec fn first_error(checks: Seq<Option<PagedKvStorageError>>) -> Option<
    PagedKvStorageError,
>
    decreases checks.len(),
{
    if checks.len() == 0 {
        None
    } else {
        match first_error(checks.drop_last()) {
            Some(error) => Some(error),
            None => checks.last(),
        }
    }
}

/// Why `len` values are not layer `layer` of `sequence` in a store of this layout and block size.
pub open spec fn layer_values_error(
    layout: PagedKvLayout,
    block_size: usize,
    sequence: PagedKvSequence,
    layer: usize,
    len: usize,
) -> Option<PagedKvStorageError> {
    let expected = sequence.token_len * layout.width();
    if layer >= layout.num_layers {
        Some(PagedKvStorageError::InvalidLayer { layer, num_layers: layout.num_layers })
    } else if sequence.block_size != block_size {
        Some(
            PagedKvStorageError::BlockSizeMismatch {
                storage_block_size: block_size,
                sequence_block_size: sequence.block_size,
            },
        )
    } else if len != expected {
        Some(
            PagedKvStorageError::LayerValueLenMismatch { expected: expected as usize, actual: len },
        )
    } else {
        None
    }
}

/// No token after `token` among the first `count` shares its slot.
pub open spec fn last_writer(sequence: PagedKvSequence, token: int, count: int) -> bool {
    forall|t: int| token < t < count ==> #[trigger] sequence.slot(t) != sequence.slot(token)
}

/// A list of checks fails with its first failure, or passes all of them.
pub proof fn lemma_first_error(checks: Seq<Option<PagedKvStorageError>>, failing: int)
    requires
        0 <= failing <= checks.len(),
        forall|i: int| 0 <= i < failing ==> #[trigger] checks[i] is None,
        failing < checks.len() ==> checks[failing] is Some,
    ensures
        first_error(checks) == if failing < checks.len() {
            checks[failing]
        } else {
            None
        },
    decreases checks.len(),
{
    if checks.len() > 0 {
        if failing < checks.len() {
            lemma_first_error(checks.drop_last(), failing);
        } else {
            lemma_first_error(checks.drop_last(), checks.len() - 1);
        }
    }
}

impl<T: Copy + Default> PagedKvPageStore<T> {
    /// Pages are addressable and whole.
    pub open spec fn wf(&self) -> bool {
        &&& self.block_size > 0
        &&& self.layout.addressable(self.block_size as int)
        &&& forall|id: u64| #[trigger]
            self.pages@.contains_key(id) ==> self.pages@[id]@.len() == self.layout.page_len(
                self.block_size as int,
            )
    }

    /// Where a page holds the token at `offset` in `layer` and `plane`.
    pub open spec fn token_start(&self, layer: int, plane: PagedKvPlane, offset: int) -> int {
        self.layout.page_offset(self.block_size as int, layer, plane.spec_index(), offset, 0)
    }

    /// The values stored for a token.
    pub open spec fn token_values(
        &self,
        sequence: PagedKvSequence,
        token_index: int,
        layer: int,
        plane: PagedKvPlane,
    ) -> Seq<T> {
        let (page_id, offset) = sequence.slot(token_index);
        let start = self.token_start(layer, plane, offset);
        self.pages@[page_id]@.subrange(start, start + self.layout.width())
    }

    pub open spec fn block_size_error(&self, sequence: PagedKvSequence) -> Option<
        PagedKvStorageError,
    > {
        if sequence.block_size != self.block_size {
            Some(
                PagedKvStorageError::BlockSizeMismatch {
                    storage_block_size: self.block_size,
                    sequence_block_size: sequence.block_size,
                },
            )
        } else {
            None
        }
    }

    pub open spec fn slot_error(&self, sequence: PagedKvSequence, token_index: usize) -> Option<
        PagedKvStorageError,
    > {
        match self.block_size_error(sequence) {
            Some(error) => Some(error),
            None => sequence.slot_error(token_index),
        }
    }

    pub open spec fn layer_error(&self, layer: usize) -> Option<PagedKvStorageError> {
        if layer >= self.layout.num_layers {
            Some(PagedKvStorageError::InvalidLayer { layer, num_layers: self.layout.num_layers })
        } else {
            None
        }
    }

    /// Why a token cannot be written: its width, its slot or its layer, in this order.
    pub open spec fn write_token_error(
        &self,
        sequence: PagedKvSequence,
        token_index: usize,
        layer: usize,
        len: usize,
    ) -> Option<PagedKvStorageError> {
        if len != self.layout.width() {
            Some(
                PagedKvStorageError::TokenWidthMismatch {
                    expected: self.layout.width() as usize,
                    actual: len,
                },
            )
        } else {
            match self.slot_error(sequence, token_index) {
                Some(error) => Some(error),
                None => self.layer_error(layer),
            }
        }
    }

    /// Why a token cannot be read: its slot, its layer or its page, in this order.
    pub open spec fn read_token_error(
        &self,
        sequence: PagedKvSequence,
        token_index: usize,
        layer: usize,
    ) -> Option<PagedKvStorageError> {
        match self.slot_error(sequence, token_index) {
            Some(error) => Some(error),
            None => match self.layer_error(layer) {
                Some(error) => Some(error),
                None => self.page_error(sequence, token_index as int),
            },
        }
    }

    pub open spec fn page_error(&self, sequence: PagedKvSequence, token_index: int) -> Option<
        PagedKvStorageError,
    > {
        let page_id = sequence.slot(token_index).0;
        if self.pages@.contains_key(page_id) {
            None
        } else {
            Some(PagedKvStorageError::MissingPage { page_id })
        }
    }

    /// Why a whole layer of a sequence cannot be written: the layer, the block size or the
    /// number of values, in this order.
    pub open spec fn write_layer_error(
        &self,
        sequence: PagedKvSequence,
        layer: usize,
        len: usize,
    ) -> Option<PagedKvStorageError> {
        layer_values_error(self.layout, self.block_size, sequence, layer, len)
    }

    /// `after` holds, on top of this store's pages, the first `count` tokens of a head-major
    /// layer. Where two tokens share a slot the later one stays.
    pub open spec fn layer_written(
        &self,
        after: Map<u64, Vec<T>>,
        sequence: PagedKvSequence,
        layer: int,
        plane: PagedKvPlane,
        values: Seq<T>,
        count: int,
    ) -> bool {
        if self.layout.num_kv_heads == 0 {
            after == self.pages@
        } else {
            &&& forall|id: u64| #[trigger]
                after.contains_key(id) <==> self.pages@.contains_key(id) || exists|t: int|
                    0 <= t < count && (#[trigger] sequence.slot(t)).0 == id
            &&& forall|id: u64| #[trigger]
                after.contains_key(id) ==> after[id]@.len() == self.layout.page_len(
                    self.block_size as int,
                )
            &&& forall|t: int|
                #![trigger sequence.slot(t)]
                0 <= t < count && last_writer(sequence, t, count) ==> {
                    let start = self.token_start(layer, plane, sequence.slot(t).1);
                    after[sequence.slot(t).0]@.subrange(start, start + self.layout.width())
                        == cells::token_run(self.layout, values, sequence.token_len as int, t)
                }
            &&& forall|id: u64, i: int|
                #![trigger after[id]@[i]]
                after.contains_key(id) && 0 <= i < self.layout.page_len(self.block_size as int)
                    && self.untouched(sequence, layer, plane, count, id, i)
                    ==> if self.pages@.contains_key(id) {
                    after[id]@[i] == self.pages@[id]@[i]
                } else {
                    cells::is_default(after[id]@[i])
                }
        }
    }

    /// No slot of the first `count` tokens covers value `i` of page `id`.
    pub open spec fn untouched(
        &self,
        sequence: PagedKvSequence,
        layer: int,
        plane: PagedKvPlane,
        count: int,
        id: u64,
        i: int,
    ) -> bool {
        forall|t: int|
            0 <= t < count && (#[trigger] sequence.slot(t)).0 == id ==> {
                let start = self.token_start(layer, plane, sequence.slot(t).1);
                !(start <= i < start + self.layout.width())
            }
    }

    /// Why a sequence cannot be gathered into a row of `max_len` tokens: its block size, its
    /// length, or the first token without a slot or a page.
    pub open spec fn gather_row_error(&self, sequence: PagedKvSequence, max_len: usize) -> Option<
        PagedKvStorageError,
    > {
        match self.block_size_error(sequence) {
            Some(error) => Some(error),
            None => if sequence.token_len > max_len {
                Some(
                    PagedKvStorageError::SequenceTooLong {
                        token_len: sequence.token_len,
                        max_len,
                    },
                )
            } else {
                first_error(
                    Seq::new(
                        sequence.token_len as nat,
                        |t: int| self.gather_token_error(sequence, t),
                    ),
                )
            },
        }
    }

    pub open spec fn gather_token_error(&self, sequence: PagedKvSequence, token: int) -> Option<
        PagedKvStorageError,
    > {
        match sequence.slot_error(token as usize) {
            Some(error) => Some(error),
            None => self.page_error(sequence, token),
        }
    }

    /// Why a batch cannot be gathered: the layer, or the first row that cannot be gathered.
    pub open spec fn gather_error(
        &self,
        sequences: Seq<&PagedKvSequence>,
        layer: usize,
        max_len: usize,
    ) -> Option<PagedKvStorageError> {
        match self.layer_error(layer) {
            Some(error) => Some(error),
            None => first_error(
                Seq::new(
                    sequences.len(),
                    |r: int| self.gather_row_error(*sequences[r], max_len),
                ),
            ),
        }
    }

    /// The values stored for one head of a token.
    pub open spec fn head_values(
        &self,
        sequence: PagedKvSequence,
        token: int,
        layer: int,
        plane: PagedKvPlane,
        head: int,
    ) -> Seq<T> {
        self.token_values(sequence, token, layer, plane).subrange(
            head * self.layout.head_dim,
            head * self.layout.head_dim + self.layout.head_dim,
        )
    }

    pub fn new(block_size: usize, layout: PagedKvLayout) -> (result: Self)
        requires
            layout.addressable(
                if block_size == 0 {
                    1
                } else {
                    block_size as int
                },
            ),
        ensures
            result.wf(),
            result.block_size == if block_size == 0 {
                1
            } else {
                block_size
            },
            result.layout == layout,
            result.pages@ == Map::<u64, Vec<T>>::empty(),
    {
        PagedKvPageStore {
            block_size: if block_size == 0 {
                1
            } else {
                block_size
            },
            layout,
            pages: HashMap::new(),
        }
    }

    /// Values per token and plane.
    pub fn token_width(&self) -> (result: usize)
        requires
            self.layout.width() <= usize::MAX,
        ensures
            result == self.layout.width(),
    {
        self.layout.num_kv_heads * self.layout.head_dim
    }

    /// Sets all values of a page to the default, making the page if there is none.
    pub fn reset_page(&mut self, page_id: u64)
        requires
            old(self).wf(),
        ensures
            final(self).wf(),
            final(self).block_size == old(self).block_size,
            final(self).layout == old(self).layout,
            final(self).pages@.dom() == old(self).pages@.dom().insert(page_id),
            forall|id: u64| #[trigger]
                old(self).pages@.contains_key(id) && id != page_id ==> final(self).pages@[id]
                    == old(self).pages@[id],
            forall|i: int|
                0 <= i < final(self).pages@[page_id]@.len() ==> cells::is_default(
                    #[trigger] final(self).pages@[page_id]@[i],
                ),
    {
        let page = self.blank_page();
        self.pages.insert(page_id, page);
    }

    /// Sets all pages of a sequence to the default.
    pub fn reset_sequence_pages(&mut self, sequence: &PagedKvSequence)
        requires
            old(self).wf(),
        ensures
            final(self).wf(),
            final(self).block_size == old(self).block_size,
            final(self).layout == old(self).layout,
            final(self).pages@.dom() =~= old(self).pages@.dom().union(
                sequence.page_ids().to_set(),
            ),
            forall|id: u64| #[trigger]
                final(self).pages@.contains_key(id) ==> if sequence.page_ids().contains(id) {
                    forall|i: int|
                        0 <= i < final(self).pages@[id]@.len() ==> cells::is_default(
                            #[trigger] final(self).pages@[id]@[i],
                        )
                } else {
                    final(self).pages@[id] == old(self).pages@[id]
                },
    {
        let ghost ids = sequence.page_ids();
        let mut k: usize = 0;
        while k < sequence.blocks.len()
            invariant
                k <= sequence.blocks@.len(),
                ids == sequence.page_ids(),
                self.wf(),
                self.block_size == old(self).block_size,
                self.layout == old(self).layout,
                self.pages@.dom() =~= old(self).pages@.dom().union(ids.take(k as int).to_set()),
                forall|id: u64| #[trigger]
                    self.pages@.contains_key(id) ==> if ids.take(k as int).contains(id) {
                        forall|i: int|
                            0 <= i < self.pages@[id]@.len() ==> cells::is_default(
                                #[trigger] self.pages@[id]@[i],
                            )
                    } else {
                        self.pages@[id] == old(self).pages@[id]
                    },
            decreases sequence.blocks@.len() - k,
        {
            let ghost done = ids.take(k as int);
            let ghost next = ids.take(k + 1);
            let id: u64 = sequence.blocks[k].id;
            assert(next =~= done.push(id));
            assert forall|x: u64| #[trigger] next.contains(x) <==> done.contains(x) || x == id by {
                if done.contains(x) {
                    let j = done.index_of(x);
                    assert(next[j] == x);
                }
                assert(next[k as int] == id);
            }
            self.reset_page(id);
            k = k + 1;
        }
        assert(ids.take(k as int) =~= ids);
    }

    /// Stores the values of one token.
    pub fn write_token(
        &mut self,
        sequence: &PagedKvSequence,
        token_index: usize,
        layer: usize,
        plane: PagedKvPlane,
        values: &[T],
    ) -> (result: Result<(), PagedKvStorageError>)
        requires
            old(self).wf(),
        ensures
            final(self).wf(),
            final(self).block_size == old(self).block_size,
            final(self).layout == old(self).layout,
            match result {
                Ok(_) => {
                    &&& old(self).write_token_error(
                        *sequence,
                        token_index,
                        layer,
                        values@.len() as usize,
                    ) is None
                    &&& run_written(
                        old(self).pages@,
                        final(self).pages@,
                        old(self).layout.page_len(old(self).block_size as int),
                        sequence.slot(token_index as int).0,
                        old(self).token_start(
                            layer as int,
                            plane,
                            sequence.slot(token_index as int).1,
                        ),
                        values@,
                    )
                },
                Err(error) => {
                    &&& old(self).write_token_error(
                        *sequence,
                        token_index,
                        layer,
                        values@.len() as usize,
                    ) == Some(error)
                    &&& *final(self) == *old(self)
                },
            },
    {
        self.validate_token_width(values.len())?;
        let (page_id, token_offset) = self.page_slot(sequence, token_index)?;
        let offset: usize = self.page_offset(layer, plane, token_offset, 0)?;
        let mut page = self.take_page(page_id);
        proof {
            cells::lemma_page_offset(
                self.layout,
                self.block_size as int,
                layer as int,
                plane.spec_index(),
                token_offset as int,
            );
        }
        let ghost blank = page@;
        cells::put_run(&mut page, offset, values, 0, values.len());
        assert(values@.subrange(0, values@.len() as int) =~= values@);
        self.pages.insert(page_id, page);
        assert(self.pages@.dom() =~= old(self).pages@.dom().insert(page_id));
        Ok(())
    }

    /// Stores one plane of one layer of a whole sequence, given head by head.
    pub fn write_sequence_layer_head_major(
        &mut self,
        sequence: &PagedKvSequence,
        layer: usize,
        plane: PagedKvPlane,
        values: &[T],
    ) -> (result: Result<(), PagedKvStorageError>)
        requires
            old(self).wf(),
            sequence.wf(),
            sequence.token_len * old(self).layout.width() <= usize::MAX,
        ensures
            final(self).wf(),
            final(self).block_size == old(self).block_size,
            final(self).layout == old(self).layout,
            match result {
                Ok(_) => {
                    &&& old(self).write_layer_error(*sequence, layer, values@.len() as usize) is None
                    &&& old(self).layer_written(
                        final(self).pages@,
                        *sequence,
                        layer as int,
                        plane,
                        values@,
                        sequence.token_len as int,
                    )
                },
                Err(error) => {
                    &&& old(self).write_layer_error(*sequence, layer, values@.len() as usize)
                        == Some(error)
                    &&& *final(self) == *old(self)
                },
            },
    {
        self.validate_layer(layer)?;
        self.validate_sequence_block_size(sequence)?;
        let expected: usize = sequence.token_len * self.token_width();
        if values.len() != expected {
            return Err(
                PagedKvStorageError::LayerValueLenMismatch { expected, actual: values.len() },
            );
        }
        let ghost store0 = *self;
        let token_len: usize = sequence.token_len;
        if self.layout.num_kv_heads == 0 {
            return Ok(());
        }
        let mut token_index: usize = 0;
        while token_index < token_len
            invariant
                token_index <= token_len,
                token_len == sequence.token_len,
                sequence.wf(),
                sequence.block_size == store0.block_size,
                store0.wf(),
                self.wf(),
                self.block_size == store0.block_size,
                self.layout == store0.layout,
                store0.layout.num_kv_heads > 0,
                layer < store0.layout.num_layers,
                values@.len() == token_len * store0.layout.width(),
                store0.layer_written(
                    self.pages@,
                    *sequence,
                    layer as int,
                    plane,
                    values@,
                    token_index as int,
                ),
            decreases token_len - token_index,
        {
            let ghost before = *self;
            let (page_id, token_offset) = match sequence.page_slot(token_index) {
                Ok(slot) => slot,
                Err(error) => {
                    assert(false);
                    return Err(error);
                },
            };
            self.write_heads(page_id, token_offset, layer, plane, values, token_len, token_index);
            proof {
                store0.lemma_layer_step(
                    before.pages@,
                    self.pages@,
                    *sequence,
                    layer as int,
                    plane,
                    values@,
                    token_index as int,
                );
            }
            token_index = token_index + 1;
        }
        Ok(())
    }

    /// One more token written after `count` tokens.
    proof fn lemma_layer_step(
        &self,
        before: Map<u64, Vec<T>>,
        after: Map<u64, Vec<T>>,
        sequence: PagedKvSequence,
        layer: int,
        plane: PagedKvPlane,
        values: Seq<T>,
        count: int,
    )
        requires
            self.wf(),
            self.layout.num_kv_heads > 0,
            0 <= layer < self.layout.num_layers,
            sequence.block_size == self.block_size,
            0 <= count < sequence.token_len,
            self.layer_written(before, sequence, layer, plane, values, count),
            run_written(
                before,
                after,
                self.layout.page_len(self.block_size as int),
                sequence.slot(count).0,
                self.token_start(layer, plane, sequence.slot(count).1),
                cells::token_run(self.layout, values, sequence.token_len as int, count),
            ),
        ensures
            self.layer_written(after, sequence, layer, plane, values, count + 1),
    {
        let w = self.layout.width();
        let size = self.block_size as int;
        let len = self.layout.page_len(size);
        let (page, offset) = sequence.slot(count);
        let start = self.token_start(layer, plane, offset);
        let run = cells::token_run(self.layout, values, sequence.token_len as int, count);
        assert(w >= 0) by (nonlinear_arith)
            requires
                w == self.layout.num_kv_heads * self.layout.head_dim,
        ;
        assert(run.len() == w);
        vstd::arithmetic::div_mod::lemma_mod_bound(count, size);
        cells::lemma_page_offset(self.layout, size, layer, plane.spec_index(), offset);
        assert forall|id: u64| #[trigger] after.contains_key(id) <==> self.pages@.contains_key(id)
            || exists|t: int| 0 <= t < count + 1 && (#[trigger] sequence.slot(t)).0 == id by {
            assert(after.contains_key(id) <==> before.contains_key(id) || id == page);
            if before.contains_key(id) && !self.pages@.contains_key(id) {
                let t = choose|t: int| 0 <= t < count && (#[trigger] sequence.slot(t)).0 == id;
                assert(0 <= t < count + 1 && sequence.slot(t).0 == id);
            }
            if id == page {
                assert(sequence.slot(count).0 == id);
            }
        }
        assert forall|id: u64| #[trigger] after.contains_key(id) implies after[id]@.len() == len by {
            if id != page {
                assert(before.contains_key(id));
            }
        }
        assert forall|t: int|
            #![trigger sequence.slot(t)]
            0 <= t < count + 1 && last_writer(sequence, t, count + 1) implies ({
            let at = self.token_start(layer, plane, sequence.slot(t).1);
            after[sequence.slot(t).0]@.subrange(at, at + w) == cells::token_run(
                self.layout,
                values,
                sequence.token_len as int,
                t,
            )
        }) by {
            let (id, off) = sequence.slot(t);
            let at = self.token_start(layer, plane, off);
            vstd::arithmetic::div_mod::lemma_mod_bound(t, size);
            cells::lemma_page_offset(self.layout, size, layer, plane.spec_index(), off);
            if t == count {
                assert forall|i: int| 0 <= i < w implies #[trigger] after[id]@.subrange(at, at + w)[i] == run[i] by {
                    assert(after[page]@[start + i] == run[i]);
                }
                assert(after[id]@.subrange(at, at + w) =~= run);
            } else {
                assert(sequence.slot(count) != sequence.slot(t));
                assert(last_writer(sequence, t, count));
                assert(before.contains_key(id));
                if id == page {
                    cells::lemma_slots_apart(
                        self.layout,
                        size,
                        layer,
                        plane.spec_index(),
                        off,
                        layer,
                        plane.spec_index(),
                        offset,
                    );
                    assert forall|i: int| 0 <= i < w implies #[trigger] after[id]@.subrange(at, at + w)[i]
                        == before[id]@.subrange(at, at + w)[i] by {
                        assert(after[page]@[at + i] == before[page]@[at + i]);
                    }
                    assert(after[id]@.subrange(at, at + w) =~= before[id]@.subrange(at, at + w));
                }
            }
        }
        assert forall|id: u64, i: int|
            #![trigger after[id]@[i]]
            after.contains_key(id) && 0 <= i < len && self.untouched(
                sequence,
                layer,
                plane,
                count + 1,
                id,
                i,
            ) implies if self.pages@.contains_key(id) {
            after[id]@[i] == self.pages@[id]@[i]
        } else {
            cells::is_default(after[id]@[i])
        } by {
            assert(self.untouched(sequence, layer, plane, count, id, i));
            if id == page {
                assert(sequence.slot(count).0 == id);
                assert(!(start <= i < start + w));
                if before.contains_key(page) {
                    assert(after[page]@[i] == before[page]@[i]);
                } else {
                    assert(!self.pages@.contains_key(page));
                }
            } else {
                assert(before.contains_key(id));
                assert(after[id] == before[id]);
                assert(before[id]@[i] == after[id]@[i]);
            }
        }
    }

    /// Stores keys and values of one layer of a whole sequence.
    ///
    /// The keys stay written where only the values are rejected.
    pub fn write_sequence_layer_kv_head_major(
        &mut self,
        sequence: &PagedKvSequence,
        layer: usize,
        key_values: &[T],
        value_values: &[T],
    ) -> (result: Result<(), PagedKvStorageError>)
        requires
            old(self).wf(),
            sequence.wf(),
            sequence.token_len * old(self).layout.width() <= usize::MAX,
        ensures
            final(self).wf(),
            final(self).block_size == old(self).block_size,
            final(self).layout == old(self).layout,
            match result {
                Ok(_) => {
                    &&& old(self).write_layer_error(*sequence, layer, key_values@.len() as usize) is None
                    &&& old(self).write_layer_error(
                        *sequence,
                        layer,
                        value_values@.len() as usize,
                    ) is None
                    &&& exists|keyed: Self|
                        {
                            &&& keyed.wf()
                            &&& keyed.block_size == old(self).block_size
                            &&& keyed.layout == old(self).layout
                            &&& #[trigger] old(self).layer_written(
                                keyed.pages@,
                                *sequence,
                                layer as int,
                                PagedKvPlane::Key,
                                key_values@,
                                sequence.token_len as int,
                            )
                            &&& keyed.layer_written(
                                final(self).pages@,
                                *sequence,
                                layer as int,
                                PagedKvPlane::Value,
                                value_values@,
                                sequence.token_len as int,
                            )
                        }
                },
                Err(error) => if old(self).write_layer_error(
                    *sequence,
                    layer,
                    key_values@.len() as usize,
                ) is Some {
                    &&& old(self).write_layer_error(*sequence, layer, key_values@.len() as usize)
                        == Some(error)
                    &&& *final(self) == *old(self)
                } else {
                    &&& old(self).write_layer_error(*sequence, layer, value_values@.len() as usize)
                        == Some(error)
                    &&& old(self).layer_written(
                        final(self).pages@,
                        *sequence,
                        layer as int,
                        PagedKvPlane::Key,
                        key_values@,
                        sequence.token_len as int,
                    )
                },
            },
    {
        self.write_sequence_layer_head_major(sequence, layer, PagedKvPlane::Key, key_values)?;
        let ghost keyed = *self;
        assert(old(self).layer_written(
            keyed.pages@,
            *sequence,
            layer as int,
            PagedKvPlane::Key,
            key_values@,
            sequence.token_len as int,
        ));
        self.write_sequence_layer_head_major(sequence, layer, PagedKvPlane::Value, value_values)
    }

    /// The stored values of one token.
    pub fn read_token(
        &self,
        sequence: &PagedKvSequence,
        token_index: usize,
        layer: usize,
        plane: PagedKvPlane,
    ) -> (result: Result<Vec<T>, PagedKvStorageError>)
        requires
            self.wf(),
        ensures
            match result {
                Ok(values) => {
                    &&& self.read_token_error(*sequence, token_index, layer) is None
                    &&& values@ == self.token_values(
                        *sequence,
                        token_index as int,
                        layer as int,
                        plane,
                    )
                    &&& values@.len() == self.layout.width()
                },
                Err(error) => self.read_token_error(*sequence, token_index, layer) == Some(error),
            },
    {
        let (page_id, token_offset) = self.page_slot(sequence, token_index)?;
        let offset: usize = self.page_offset(layer, plane, token_offset, 0)?;
        let width: usize = self.token_width();
        proof {
            cells::lemma_page_offset(
                self.layout,
                self.block_size as int,
                layer as int,
                plane.spec_index(),
                token_offset as int,
            );
        }
        match self.pages.get(&page_id) {
            Some(page) => {
                let part = vstd::slice::slice_subrange(page.as_slice(), offset, offset + width);
                Ok(vstd::slice::slice_to_vec(part))
            },
            None => Err(PagedKvStorageError::MissingPage { page_id }),
        }
    }

    /// Gathers one plane of one layer of several sequences into rows of `max_len` tokens, each
    /// row right-aligned.
    pub fn gather_layer_right_aligned(
        &self,
        sequences: &[&PagedKvSequence],
        layer: usize,
        max_len: usize,
        plane: PagedKvPlane,
    ) -> (result: Result<Vec<T>, PagedKvStorageError>)
        requires
            self.wf(),
            self.layout.batch_addressable(sequences@.len() as int, max_len as int),
        ensures
            match result {
                Ok(out) => {
                    &&& self.gather_error(sequences@, layer, max_len) is None
                    &&& cells::right_aligned(
                        self.layout,
                        max_len as int,
                        sequences@.len() as int,
                        out@,
                        |row: int| sequences@[row].token_len as int,
                        |row: int, head: int, token: int|
                            self.head_values(*sequences@[row], token, layer as int, plane, head),
                    )
                },
                Err(error) => self.gather_error(sequences@, layer, max_len) == Some(error),
            },
    {
        self.validate_layer(layer)?;
        let rows: usize = sequences.len();
        let row_stride: usize = self.layout.num_kv_heads * max_len * self.layout.head_dim;
        let blank: T = T::default();
        let mut output: Vec<T> = cells::filled(blank, rows * row_stride);
        let ghost checks = Seq::new(
            sequences@.len(),
            |r: int| self.gather_row_error(*sequences@[r], max_len),
        );
        let ghost len_of = |r: int| sequences@[r].token_len as int;
        let ghost run_of = |r: int, head: int, token: int|
            self.head_values(*sequences@[r], token, layer as int, plane, head);
        let mut row: usize = 0;
        proof {
            assert forall|r: int, head: int, p: int|
                #![trigger self.layout.cell(max_len as int, r, head, p)]
                0 <= r < rows && 0 <= head < self.layout.num_kv_heads && 0 <= p
                    < max_len implies cells::cell_holds(
                self.layout,
                output@,
                self.layout.cell(max_len as int, r, head, p) * self.layout.head_dim,
                true,
                run_of(r, head, p - (max_len - len_of(r))),
            ) by {
                cells::lemma_cell(self.layout, rows as int, max_len as int, r, head, p);
            }
        }
        while row < rows
            invariant
                row <= rows,
                rows == sequences@.len(),
                self.wf(),
                self.layout.batch_addressable(rows as int, max_len as int),
                row_stride == self.layout.row_stride(max_len as int),
                layer < self.layout.num_layers,
                checks == Seq::new(
                    sequences@.len(),
                    |r: int| self.gather_row_error(*sequences@[r], max_len),
                ),
                forall|r: int| 0 <= r < row ==> #[trigger] checks[r] is None,
                len_of == (|r: int| sequences@[r].token_len as int),
                run_of == (|r: int, head: int, token: int|
                    self.head_values(*sequences@[r], token, layer as int, plane, head)),
                cells::right_aligned_upto(
                    self.layout,
                    max_len as int,
                    rows as int,
                    output@,
                    len_of,
                    run_of,
                    row as int,
                    0,
                ),
            decreases rows - row,
        {
            let sequence: &PagedKvSequence = sequences[row];
            match self.place_row(
                sequence,
                layer,
                plane,
                max_len,
                rows,
                row,
                &mut output,
                Ghost(len_of),
                Ghost(run_of),
            ) {
                Ok(_) => {},
                Err(error) => {
                    assert(checks[row as int] == Some(error));
                    proof {
                        lemma_first_error(checks, row as int);
                    }
                    return Err(error);
                },
            }
            assert(checks[row as int] is None);
            row = row + 1;
        }
        proof {
            lemma_first_error(checks, rows as int);
        }
        Ok(output)
    }

    /// Gathers one sequence into its row.
    fn place_row(
        &self,
        sequence: &PagedKvSequence,
        layer: usize,
        plane: PagedKvPlane,
        max_len: usize,
        rows: usize,
        row: usize,
        output: &mut Vec<T>,
        Ghost(len_of): Ghost<spec_fn(int) -> int>,
        Ghost(run_of): Ghost<spec_fn(int, int, int) -> Seq<T>>,
    ) -> (result: Result<(), PagedKvStorageError>)
        requires
            self.wf(),
            self.layout.batch_addressable(rows as int, max_len as int),
            layer < self.layout.num_layers,
            row < rows,
            len_of(row as int) == sequence.token_len,
            forall|head: int, token: int|
                run_of(row as int, head, token) == #[trigger] self.head_values(
                    *sequence,
                    token,
                    layer as int,
                    plane,
                    head,
                ),
            cells::right_aligned_upto(
                self.layout,
                max_len as int,
                rows as int,
                old(output)@,
                len_of,
                run_of,
                row as int,
                0,
            ),
        ensures
            match result {
                Ok(_) => {
                    &&& self.gather_row_error(*sequence, max_len) is None
                    &&& cells::right_aligned_upto(
                        self.layout,
                        max_len as int,
                        rows as int,
                        final(output)@,
                        len_of,
                        run_of,
                        row + 1,
                        0,
                    )
                },
                Err(error) => self.gather_row_error(*sequence, max_len) == Some(error),
            },
    {
        self.validate_sequence_block_size(sequence)?;
        if sequence.token_len > max_len {
            return Err(
                PagedKvStorageError::SequenceTooLong { token_len: sequence.token_len, max_len },
            );
        }
        let ghost checks = Seq::new(
            sequence.token_len as nat,
            |t: int| self.gather_token_error(*sequence, t),
        );
        let target_start: usize = max_len - sequence.token_len;
        let token_len: usize = sequence.token_len;
        let mut token_index: usize = 0;
        while token_index < token_len
            invariant
                token_index <= token_len,
                token_len == sequence.token_len,
                token_len <= max_len,
                target_start == max_len - token_len,
                sequence.block_size == self.block_size,
                self.wf(),
                self.layout.batch_addressable(rows as int, max_len as int),
                layer < self.layout.num_layers,
                row < rows,
                len_of(row as int) == token_len,
                forall|head: int, token: int|
                    run_of(row as int, head, token) == #[trigger] self.head_values(
                        *sequence,
                        token,
                        layer as int,
                        plane,
                        head,
                    ),
                checks == Seq::new(
                    sequence.token_len as nat,
                    |t: int| self.gather_token_error(*sequence, t),
                ),
                forall|t: int| 0 <= t < token_index ==> #[trigger] checks[t] is None,
                cells::right_aligned_upto(
                    self.layout,
                    max_len as int,
                    rows as int,
                    output@,
                    len_of,
                    run_of,
                    row as int,
                    token_index as int,
                ),
            decreases token_len - token_index,
        {
            let (page_id, token_offset) = match sequence.page_slot(token_index) {
                Ok(slot) => slot,
                Err(error) => {
                    assert(checks[token_index as int] == Some(error));
                    proof {
                        lemma_first_error(checks, token_index as int);
                    }
                    return Err(error);
                },
            };
            match self.pages.get(&page_id) {
                Some(page) => {
                    let base: usize = match self.page_offset(layer, plane, token_offset, 0) {
                        Ok(offset) => offset,
                        Err(error) => {
                            assert(false);
                            return Err(error);
                        },
                    };
                    let ghost before = output@;
                    proof {
                        self.lemma_head_bounds(
                            *sequence,
                            token_index as int,
                            layer as int,
                            plane,
                        );
                    }
                    cells::place_token(
                        output,
                        self.layout,
                        max_len,
                        rows,
                        row,
                        target_start + token_index,
                        page.as_slice(),
                        base,
                        self.layout.head_dim,
                    );
                    proof {
                        cells::lemma_token_placed(
                            self.layout,
                            max_len as int,
                            rows as int,
                            before,
                            output@,
                            len_of,
                            run_of,
                            row as int,
                            token_index as int,
                        );
                    }
                },
                None => {
                    let error = PagedKvStorageError::MissingPage { page_id };
                    assert(checks[token_index as int] == Some(error));
                    proof {
                        lemma_first_error(checks, token_index as int);
                    }
                    return Err(error);
                },
            }
            assert(checks[token_index as int] is None);
            token_index = token_index + 1;
        }
        proof {
            lemma_first_error(checks, token_len as int);
        }
        Ok(())
    }

    /// The heads of a stored token lie side by side within its page.
    proof fn lemma_head_bounds(
        &self,
        sequence: PagedKvSequence,
        token: int,
        layer: int,
        plane: PagedKvPlane,
    )
        requires
            self.wf(),
            0 <= layer < self.layout.num_layers,
            sequence.block_size == self.block_size,
            0 <= token,
            self.pages@.contains_key(sequence.slot(token).0),
        ensures
            ({
                let d = self.layout.head_dim as int;
                let page = self.pages@[sequence.slot(token).0]@;
                let base = self.token_start(layer, plane, sequence.slot(token).1);
                forall|head: int|
                    0 <= head < self.layout.num_kv_heads ==> {
                        &&& 0 <= #[trigger] (head * d)
                        &&& base + head * d + d <= page.len()
                        &&& page.subrange(base + head * d, base + head * d + d)
                            == self.head_values(sequence, token, layer, plane, head)
                    }
            }),
    {
        let d = self.layout.head_dim as int;
        let w = self.layout.width();
        let (id, offset) = sequence.slot(token);
        let page = self.pages@[id]@;
        let base = self.token_start(layer, plane, offset);
        vstd::arithmetic::div_mod::lemma_mod_bound(token, self.block_size as int);
        cells::lemma_page_offset(
            self.layout,
            self.block_size as int,
            layer,
            plane.spec_index(),
            offset,
        );
        assert forall|head: int| 0 <= head < self.layout.num_kv_heads implies {
            &&& 0 <= #[trigger] (head * d)
            &&& base + head * d + d <= page.len()
            &&& page.subrange(base + head * d, base + head * d + d) == self.head_values(
                sequence,
                token,
                layer,
                plane,
                head,
            )
        } by {
            assert(0 <= head * d && head * d + d <= w) by (nonlinear_arith)
                requires
                    0 <= head,
                    head + 1 <= self.layout.num_kv_heads,
                    w == self.layout.num_kv_heads * d,
                    d >= 0,
            ;
            assert(page.subrange(base + head * d, base + head * d + d) =~= self.head_values(
                sequence,
                token,
                layer,
                plane,
                head,
            ));
        }
    }

    /// Writes one token of a head-major buffer, head by head.
    fn write_heads(
        &mut self,
        page_id: u64,
        token_offset: usize,
        layer: usize,
        plane: PagedKvPlane,
        values: &[T],
        token_len: usize,
        token_index: usize,
    )
        requires
            old(self).wf(),
            layer < old(self).layout.num_layers,
            token_offset < old(self).block_size,
            token_index < token_len,
            values@.len() == token_len * old(self).layout.width(),
        ensures
            final(self).wf(),
            final(self).block_size == old(self).block_size,
            final(self).layout == old(self).layout,
            run_written(
                old(self).pages@,
                final(self).pages@,
                old(self).layout.page_len(old(self).block_size as int),
                page_id,
                old(self).token_start(layer as int, plane, token_offset as int),
                cells::token_run(old(self).layout, values@, token_len as int, token_index as int),
            ),
    {
        let layout = self.layout;
        let values_len: usize = values.len();
        let start: usize = match self.page_offset(layer, plane, token_offset, 0) {
            Ok(offset) => offset,
            Err(_) => {
                assert(false);
                return;
            },
        };
        let mut page = self.take_page(page_id);
        let page_len: usize = page.len();
        let ghost base = page@;
        let ghost run = cells::token_run(layout, values@, token_len as int, token_index as int);
        let ghost d = layout.head_dim as int;
        proof {
            cells::lemma_page_offset(
                layout,
                self.block_size as int,
                layer as int,
                plane.spec_index(),
                token_offset as int,
            );
            assert(0 * d == 0);
            assert(run.len() == layout.width()) by {
                assert(layout.width() >= 0) by (nonlinear_arith)
                    requires
                        layout.width() == layout.num_kv_heads * layout.head_dim,
                ;
            }
        }
        let mut head: usize = 0;
        while head < layout.num_kv_heads
            invariant
                head <= layout.num_kv_heads,
                token_index < token_len,
                values_len == values@.len(),
                page_len == page@.len(),
                values@.len() == token_len * layout.width(),
                start + layout.width() <= page_len,
                base.len() == page_len,
                d == layout.head_dim,
                run == cells::token_run(layout, values@, token_len as int, token_index as int),
                run.len() == layout.width(),
                0 <= head * d <= run.len(),
                page@ == cells::overlaid(base, start as int, run.subrange(0, head * d)),
            decreases layout.num_kv_heads - head,
        {
            proof {
                cells::lemma_head_run(
                    layout,
                    values@,
                    token_len as int,
                    head as int,
                    token_index as int,
                );
                assert((head + 1) * d == head * d + d) by (nonlinear_arith);
                vstd::arithmetic::mul::lemma_mul_is_associative(head as int, token_len as int, d);
                vstd::arithmetic::mul::lemma_mul_is_associative(
                    layout.num_kv_heads as int,
                    token_len as int,
                    d,
                );
                let per_head = token_len * d;
                assert(0 <= per_head <= token_len * (layout.num_kv_heads * d)) by (nonlinear_arith)
                    requires
                        per_head == token_len * d,
                        layout.num_kv_heads >= 1,
                        d >= 0,
                ;
            }
            let src: usize = head * (token_len * layout.head_dim) + token_index * layout.head_dim;
            let dst: usize = start + head * layout.head_dim;
            cells::put_run(&mut page, dst, values, src, layout.head_dim);
            assert(page@ =~= cells::overlaid(base, start as int, run.subrange(0, (head + 1) * d))) by {
                let part = run.subrange(head * d, head * d + d);
                assert(part == values@.subrange(src as int, src + d));
                assert forall|i: int| 0 <= i < page_len implies page@[i] == cells::overlaid(
                    base,
                    start as int,
                    run.subrange(0, (head + 1) * d),
                )[i] by {
                    if dst <= i < dst + d {
                        assert(page@[i] == part[i - dst]);
                    }
                }
            }
            head = head + 1;
        }
        assert(run.subrange(0, head * d) =~= run);
        self.pages.insert(page_id, page);
        assert(self.pages@.dom() =~= old(self).pages@.dom().insert(page_id));
    }

    fn values_per_page(&self) -> (result: usize)
        requires
            self.layout.addressable(self.block_size as int),
        ensures
            result == self.layout.page_len(self.block_size as int),
    {
        let width: usize = self.token_width();
        proof {
            let n = self.layout.num_layers as int;
            let b = self.block_size as int;
            let w = width as int;
            assert(n * 2 * b * w == n * (2 * (b * w))) by (nonlinear_arith);
        }
        self.layout.num_layers * 2 * self.block_size * width
    }

    fn blank_page(&self) -> (page: Vec<T>)
        requires
            self.layout.addressable(self.block_size as int),
        ensures
            page@.len() == self.layout.page_len(self.block_size as int),
            forall|i: int| 0 <= i < page@.len() ==> cells::is_default(#[trigger] page@[i]),
    {
        let blank: T = T::default();
        cells::filled(blank, self.values_per_page())
    }

    /// Takes a page out of the store, or a new one of default values.
    fn take_page(&mut self, page_id: u64) -> (page: Vec<T>)
        requires
            old(self).wf(),
        ensures
            final(self).wf(),
            final(self).block_size == old(self).block_size,
            final(self).layout == old(self).layout,
            final(self).pages@ == old(self).pages@.remove(page_id),
            page@.len() == old(self).layout.page_len(old(self).block_size as int),
            if old(self).pages@.contains_key(page_id) {
                page == old(self).pages@[page_id]
            } else {
                forall|i: int| 0 <= i < page@.len() ==> cells::is_default(#[trigger] page@[i])
            },
    {
        match self.pages.remove(&page_id) {
            Some(page) => page,
            None => {
                assert(old(self).pages@.remove(page_id) =~= old(self).pages@);
                self.blank_page()
            },
        }
    }

    fn page_slot(&self, sequence: &PagedKvSequence, token_index: usize) -> (result: Result<
        (u64, usize),
        PagedKvStorageError,
    >)
        requires
            self.block_size > 0,
        ensures
            match result {
                Ok((page_id, token_offset)) => {
                    &&& self.slot_error(*sequence, token_index) is None
                    &&& (page_id, token_offset as int) == sequence.slot(token_index as int)
                    &&& token_offset < self.block_size
                },
                Err(error) => self.slot_error(*sequence, token_index) == Some(error),
            },
    {
        self.validate_sequence_block_size(sequence)?;
        sequence.page_slot(token_index)
    }

    fn page_offset(
        &self,
        layer: usize,
        plane: PagedKvPlane,
        token_offset: usize,
        head: usize,
    ) -> (result: Result<usize, PagedKvStorageError>)
        requires
            self.wf(),
            head == 0 || head < self.layout.num_kv_heads,
        ensures
            match result {
                Ok(offset) => {
                    &&& layer < self.layout.num_layers
                    &&& token_offset < self.block_size
                    &&& offset == self.layout.page_offset(
                        self.block_size as int,
                        layer as int,
                        plane.spec_index(),
                        token_offset as int,
                        head as int,
                    )
                },
                Err(error) => {
                    ||| self.layer_error(layer) == Some(error)
                    ||| {
                        &&& self.layer_error(layer) is None
                        &&& token_offset >= self.block_size
                        &&& error == (PagedKvStorageError::InvalidTokenOffset {
                            token_offset,
                            block_size: self.block_size,
                        })
                    }
                },
            },
    {
        self.validate_layer(layer)?;
        if token_offset >= self.block_size {
            return Err(
                PagedKvStorageError::InvalidTokenOffset {
                    token_offset,
                    block_size: self.block_size,
                },
            );
        }
        let width: usize = self.token_width();
        proof {
            let b = self.block_size as int;
            let w = width as int;
            let h = self.layout.num_kv_heads as int;
            let d = self.layout.head_dim as int;
            cells::lemma_page_offset(
                self.layout,
                b,
                layer as int,
                plane.spec_index(),
                token_offset as int,
            );
            assert(2 * b * w == 2 * (b * w)) by (nonlinear_arith);
            assert(2 * b <= self.layout.num_layers * 2 * b) by (nonlinear_arith)
                requires
                    self.layout.num_layers >= 1,
                    b > 0,
            ;
            assert(0 <= b * w) by (nonlinear_arith)
                requires
                    b > 0,
                    w >= 0,
            ;
            if head > 0 {
                assert(head * d + d <= h * d && 0 <= head * d) by (nonlinear_arith)
                    requires
                        0 <= head,
                        head + 1 <= h,
                        d >= 0,
                ;
            } else {
                assert(0 * d == 0);
            }
        }
        let layer_stride: usize = 2 * self.block_size * width;
        let plane_stride: usize = self.block_size * width;
        Ok(
            layer * layer_stride + plane.index() * plane_stride + token_offset * width + head
                * self.layout.head_dim,
        )
    }

    fn validate_layer(&self, layer: usize) -> (result: Result<(), PagedKvStorageError>)
        ensures
            match result {
                Ok(_) => self.layer_error(layer) is None,
                Err(error) => self.layer_error(layer) == Some(error),
            },
    {
        if layer >= self.layout.num_layers {
            return Err(
                PagedKvStorageError::InvalidLayer { layer, num_layers: self.layout.num_layers },
            );
        }
        Ok(())
    }

    fn validate_sequence_block_size(&self, sequence: &PagedKvSequence) -> (result: Result<
        (),
        PagedKvStorageError,
    >)
        ensures
            match result {
                Ok(_) => self.block_size_error(*sequence) is None,
                Err(error) => self.block_size_error(*sequence) == Some(error),
            },
    {
        if sequence.block_size != self.block_size {
            return Err(
                PagedKvStorageError::BlockSizeMismatch {
                    storage_block_size: self.block_size,
                    sequence_block_size: sequence.block_size,
                },
            );
        }
        Ok(())
    }

    fn validate_token_width(&self, actual: usize) -> (result: Result<(), PagedKvStorageError>)
        requires
            self.layout.width() <= usize::MAX,
        ensures
            match result {
                Ok(_) => actual == self.layout.width(),
                Err(error) => {
                    &&& actual != self.layout.width()
                    &&& error == (PagedKvStorageError::TokenWidthMismatch {
                        expected: self.layout.width() as usize,
                        actual,
                    })
                },
            },
    {
        let expected: usize = self.token_width();
        if actual != expected {
            return Err(PagedKvStorageError::TokenWidthMismatch { expected, actual });
        }
        Ok(())
    }
}

} // verus!
