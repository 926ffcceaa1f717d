//! Batched copies between pages and contiguous buffers, as flat index lists.
use super::layout::PagedKvStorageError;
use super::sequence::PagedKvSequence;
use super::store;
use vstd::prelude::*;

verus! {

/// The value as `u32`, if it is one.
fn to_u32(value: u64) -> (result: Option<u32>)
    ensures
        result == if value <= u32::MAX {
            Some(value as u32)
        } else {
            None
        },
{
    if value <= 0xffff_ffff {
        Some(value as u32)
    } else {
        None
    }
}

/// The index as `u32`, if it is one.
fn index_to_u32(value: usize) -> (result: Option<u32>)
    ensures
        result == if value <= u32::MAX {
            Some(value as u32)
        } else {
            None
        },
{
    if value <= 0xffff_ffff {
        Some(value as u32)
    } else {
        None
    }
}

/// Tokens to copy from batch rows into pages.
#[derive(Debug, Clone)]
pub struct PagedKvNativeAppendPlan {
    pub page_ids: Vec<u32>,
    pub token_offsets: Vec<u32>,
    pub row_indices: Vec<u32>,
    pub source_token_indices: Vec<u32>,
}

impl Default for PagedKvNativeAppendPlan {
    fn default() -> (result: Self)
        ensures
            result.wf(),
            result.page_ids@.len() == 0,
    {
        PagedKvNativeAppendPlan {
            page_ids: Vec::new(),
            token_offsets: Vec::new(),
            row_indices: Vec::new(),
            source_token_indices: Vec::new(),
        }
    }
}

impl PagedKvNativeAppendPlan {
    /// The lists run in parallel.
    pub open spec fn wf(&self) -> bool {
        &&& self.token_offsets@.len() == self.page_ids@.len()
        &&& self.row_indices@.len() == self.page_ids@.len()
        &&& self.source_token_indices@.len() == self.page_ids@.len()
    }

    /// Why an entry cannot be added: its page or its source index exceeds 32 bits.
    pub open spec fn push_error(page_id: u64, source_token_index: usize) -> Option<
        PagedKvStorageError,
    > {
        if page_id > u32::MAX {
            Some(PagedKvStorageError::MissingPage { page_id })
        } else if source_token_index > u32::MAX {
            Some(
                PagedKvStorageError::InvalidTokenIndex {
                    token_index: source_token_index,
                    token_len: usize::MAX,
                },
            )
        } else {
            None
        }
    }

    pub fn entries(&self) -> (result: usize)
        ensures
            result == self.page_ids@.len(),
    {
        self.page_ids.len()
    }

    pub fn is_empty(&self) -> (result: bool)
        ensures
            result == (self.page_ids@.len() == 0),
    {
        self.page_ids.len() == 0
    }

    /// Adds one token. Offset and row are cut to 32 bits.
    pub fn push(
        &mut self,
        page_id: u64,
        token_offset: usize,
        row_index: usize,
        source_token_index: usize,
    ) -> (result: Result<(), PagedKvStorageError>)
        ensures
            old(self).wf() ==> final(self).wf(),
            match result {
                Ok(_) => {
                    &&& Self::push_error(page_id, source_token_index) is None
                    &&& final(self).page_ids@ == old(self).page_ids@.push(page_id as u32)
                    &&& final(self).token_offsets@ == old(self).token_offsets@.push(
                        token_offset as u32,
                    )
                    &&& final(self).row_indices@ == old(self).row_indices@.push(row_index as u32)
                    &&& final(self).source_token_indices@ == old(self).source_token_indices@.push(
                        source_token_index as u32,
                    )
                },
                Err(error) => {
                    &&& Self::push_error(page_id, source_token_index) == Some(error)
                    &&& *final(self) == *old(self)
                },
            },
    {
        let page: u32 = match to_u32(page_id) {
            Some(page) => page,
            None => {
                return Err(PagedKvStorageError::MissingPage { page_id });
            },
        };
        let source: u32 = match index_to_u32(source_token_index) {
            Some(source) => source,
            None => {
                return Err(
                    PagedKvStorageError::InvalidTokenIndex {
                        token_index: source_token_index,
                        token_len: usize::MAX,
                    },
                );
            },
        };
        self.page_ids.push(page);
        self.token_offsets.push(token_offset as u32);
        self.row_indices.push(row_index as u32);
        self.source_token_indices.push(source);
        Ok(())
    }
}

/// Tokens to copy from pages into right-aligned batch rows.
#[derive(Debug, Clone)]
pub struct PagedKvGatherPlan {
    pub page_ids: Vec<u32>,
    pub token_offsets: Vec<u32>,
    pub row_indices: Vec<u32>,
    pub target_token_indices: Vec<u32>,
}

impl Default for PagedKvGatherPlan {
    fn default() -> (result: Self)
        ensures
            result.lists(Seq::empty()),
    {
        PagedKvGatherPlan {
            page_ids: Vec::new(),
            token_offsets: Vec::new(),
            row_indices: Vec::new(),
            target_token_indices: Vec::new(),
        }
    }
}

/// One token of a gather: its page, its place in the page, its row and its place in the row.
pub struct GatherEntry {
    pub page_id: int,
    pub token_offset: int,
    pub row: int,
    pub target: int,
}

/// What token `token` of the sequence in row `row` contributes.
pub open spec fn gather_entry(
    sequence: PagedKvSequence,
    row: int,
    max_len: int,
    token: int,
) -> GatherEntry {
    GatherEntry {
        page_id: sequence.slot(token).0 as int,
        token_offset: sequence.slot(token).1,
        row,
        target: max_len - sequence.token_len + token,
    }
}

/// The entries of the first `rows` rows, row after row and token after token.
pub open spec fn gather_entries(
    sequences: Seq<Option<&PagedKvSequence>>,
    max_len: int,
    rows: int,
) -> Seq<GatherEntry>
    decreases rows,
{
    if rows <= 0 {
        Seq::empty()
    } else {
        gather_entries(sequences, max_len, rows - 1) + match sequences[rows - 1] {
            Some(sequence) => Seq::new(
                sequence.token_len as nat,
                |t: int| gather_entry(*sequence, rows - 1, max_len, t),
            ),
            None => Seq::empty(),
        }
    }
}

/// Why a token cannot enter a gather plan.
pub open spec fn gather_plan_token_error(
    sequence: PagedKvSequence,
    block_size: usize,
    row: int,
    max_len: usize,
    token: int,
) -> Option<PagedKvStorageError> {
    let (page_id, offset) = sequence.slot(token);
    let target = max_len - sequence.token_len + token;
    match sequence.slot_error(token as usize) {
        Some(error) => Some(error),
        None => if page_id > u32::MAX {
            Some(PagedKvStorageError::MissingPage { page_id })
        } else if offset > u32::MAX {
            Some(
                PagedKvStorageError::InvalidTokenOffset {
                    token_offset: offset as usize,
                    block_size,
                },
            )
        } else if row > u32::MAX {
            Some(
                PagedKvStorageError::InvalidTokenIndex {
                    token_index: row as usize,
                    token_len: usize::MAX,
                },
            )
        } else if target > u32::MAX {
            Some(
                PagedKvStorageError::InvalidTokenIndex {
                    token_index: target as usize,
                    token_len: max_len,
                },
            )
        } else {
            None
        },
    }
}

/// Why a row cannot enter a gather plan. An empty row always can.
pub open spec fn gather_plan_row_error(
    sequences: Seq<Option<&PagedKvSequence>>,
    block_size: usize,
    row: int,
    max_len: usize,
) -> Option<PagedKvStorageError> {
    match sequences[row] {
        None => None,
        Some(sequence) => if sequence.block_size != block_size {
            Some(
                PagedKvStorageError::BlockSizeMismatch {
                    storage_block_size: block_size,
                    sequence_block_size: sequence.block_size,
                },
            )
        } else if sequence.token_len > max_len {
            Some(
                PagedKvStorageError::SequenceTooLong { token_len: sequence.token_len, max_len },
            )
        } else {
            store::first_error(
                Seq::new(
                    sequence.token_len as nat,
                    |t: int| gather_plan_token_error(*sequence, block_size, row, max_len, t),
                ),
            )
        },
    }
}

/// Why a gather cannot be planned: its first bad row.
pub open spec fn gather_plan_error(
    sequences: Seq<Option<&PagedKvSequence>>,
    block_size: usize,
    max_len: usize,
) -> Option<PagedKvStorageError> {
    store::first_error(
        Seq::new(
            sequences.len(),
            |r: int| gather_plan_row_error(sequences, block_size, r, max_len),
        ),
    )
}

impl PagedKvGatherPlan {
    /// The plan lists exactly these entries, in this order.
    pub open spec fn lists(&self, entries: Seq<GatherEntry>) -> bool {
        &&& self.page_ids@.len() == entries.len()
        &&& self.token_offsets@.len() == entries.len()
        &&& self.row_indices@.len() == entries.len()
        &&& self.target_token_indices@.len() == entries.len()
        &&& forall|k: int|
            #![trigger entries[k]]
            0 <= k < entries.len() ==> {
                &&& self.page_ids@[k] == entries[k].page_id
                &&& self.token_offsets@[k] == entries[k].token_offset
                &&& self.row_indices@[k] == entries[k].row
                &&& self.target_token_indices@[k] == entries[k].target
            }
    }

    pub fn entries(&self) -> (result: usize)
        ensures
            result == self.page_ids@.len(),
    {
        self.page_ids.len()
    }

    /// Plans a right-aligned gather of rows of width `max_len`; rows without a sequence stay
    /// empty.
    pub fn from_optional_sequences(
        block_size: usize,
        sequences: &[Option<&PagedKvSequence>],
        max_len: usize,
    ) -> (result: Result<Self, PagedKvStorageError>)
        requires
            forall|r: int|
                0 <= r < sequences@.len() ==> match #[trigger] sequences@[r] {
                    Some(sequence) => sequence.block_size > 0,
                    None => true,
                },
        ensures
            match result {
                Ok(plan) => {
                    &&& gather_plan_error(sequences@, block_size, max_len) is None
                    &&& plan.lists(
                        gather_entries(sequences@, max_len as int, sequences@.len() as int),
                    )
                },
                Err(error) => gather_plan_error(sequences@, block_size, max_len) == Some(error),
            },
    {
        let mut plan = PagedKvGatherPlan::default();
        let ghost checks = Seq::new(
            sequences@.len(),
            |r: int| gather_plan_row_error(sequences@, block_size, r, max_len),
        );
        let mut row: usize = 0;
        while row < sequences.len()
            invariant
                row <= sequences@.len(),
                forall|r: int|
                    0 <= r < sequences@.len() ==> match #[trigger] sequences@[r] {
                        Some(sequence) => sequence.block_size > 0,
                        None => true,
                    },
                checks == Seq::new(
                    sequences@.len(),
                    |r: int| gather_plan_row_error(sequences@, block_size, r, max_len),
                ),
                forall|r: int| 0 <= r < row ==> #[trigger] checks[r] is None,
                plan.lists(gather_entries(sequences@, max_len as int, row as int)),
            decreases sequences@.len() - row,
        {
            match sequences[row] {
                None => {},
                Some(sequence) => {
                    assert(sequences@[row as int] is Some);
                    match plan.append_row(
                        sequence,
                        block_size,
                        row,
                        max_len,
                        Ghost(gather_entries(sequences@, max_len as int, row as int)),
                    ) {
                        Ok(_) => {},
                        Err(error) => {
                            assert(checks[row as int] == Some(error));
                            proof {
                                store::lemma_first_error(checks, row as int);
                            }
                            return Err(error);
                        },
                    }
                },
            }
            assert(checks[row as int] is None);
            assert(gather_entries(sequences@, max_len as int, row + 1) =~= gather_entries(
                sequences@,
                max_len as int,
                row as int,
            ) + match sequences@[row as int] {
                Some(sequence) => Seq::new(
                    sequence.token_len as nat,
                    |t: int| gather_entry(*sequence, row as int, max_len as int, t),
                ),
                None => Seq::empty(),
            });
            row = row + 1;
        }
        proof {
            store::lemma_first_error(checks, row as int);
        }
        Ok(plan)
    }

    /// Adds the tokens of one row.
    fn append_row(
        &mut self,
        sequence: &PagedKvSequence,
        block_size: usize,
        row: usize,
        max_len: usize,
        Ghost(done): Ghost<Seq<GatherEntry>>,
    ) -> (result: Result<(), PagedKvStorageError>)
        requires
            sequence.block_size > 0,
            old(self).lists(done),
        ensures
            ({
                let error = gather_plan_row_error(
                    Seq::new(row as nat + 1, |r: int| Some(sequence)),
                    block_size,
                    row as int,
                    max_len,
                );
                match result {
                    Ok(_) => {
                        &&& error is None
                        &&& final(self).lists(
                            done + Seq::new(
                                sequence.token_len as nat,
                                |t: int| gather_entry(*sequence, row as int, max_len as int, t),
                            ),
                        )
                    },
                    Err(e) => error == Some(e),
                }
            }),
    {
        if sequence.block_size != block_size {
            return Err(
                PagedKvStorageError::BlockSizeMismatch {
                    storage_block_size: block_size,
                    sequence_block_size: sequence.block_size,
                },
            );
        }
        if sequence.token_len > max_len {
            return Err(
                PagedKvStorageError::SequenceTooLong { token_len: sequence.token_len, max_len },
            );
        }
        let ghost checks = Seq::new(
            sequence.token_len as nat,
            |t: int| gather_plan_token_error(*sequence, block_size, row as int, max_len, t),
        );
        let target_start: usize = max_len - sequence.token_len;
        let mut token_index: usize = 0;
        assert(done + Seq::new(
            0,
            |t: int| gather_entry(*sequence, row as int, max_len as int, t),
        ) =~= done);
        while token_index < sequence.token_len
            invariant
                token_index <= sequence.token_len,
                sequence.token_len <= max_len,
                target_start == max_len - sequence.token_len,
                sequence.block_size > 0,
                sequence.block_size == block_size,
                checks == Seq::new(
                    sequence.token_len as nat,
                    |t: int| gather_plan_token_error(*sequence, block_size, row as int, max_len, t),
                ),
                forall|t: int| 0 <= t < token_index ==> #[trigger] checks[t] is None,
                self.lists(
                    done + Seq::new(
                        token_index as nat,
                        |t: int| gather_entry(*sequence, row as int, max_len as int, t),
                    ),
                ),
            decreases sequence.token_len - token_index,
        {
            let ghost before = done + Seq::new(
                token_index as nat,
                |t: int| gather_entry(*sequence, row as int, max_len as int, t),
            );
            let entry = gather_plan_indices(sequence, block_size, row, max_len, token_index);
            match entry {
                Ok((page, offset, row_index, target)) => {
                    self.page_ids.push(page);
                    self.token_offsets.push(offset);
                    self.row_indices.push(row_index);
                    self.target_token_indices.push(target);
                    let ghost after = done + Seq::new(
                        (token_index + 1) as nat,
                        |t: int| gather_entry(*sequence, row as int, max_len as int, t),
                    );
                    assert(after =~= before.push(
                        gather_entry(*sequence, row as int, max_len as int, token_index as int),
                    ));
                    assert(self.lists(after)) by {
                        assert forall|k: int| #![trigger after[k]] 0 <= k < after.len() implies {
                            &&& self.page_ids@[k] == after[k].page_id
                            &&& self.token_offsets@[k] == after[k].token_offset
                            &&& self.row_indices@[k] == after[k].row
                            &&& self.target_token_indices@[k] == after[k].target
                        } by {
                            if k < before.len() {
                                assert(after[k] == before[k]);
                            }
                        }
                    }
                    assert(checks[token_index as int] is None);
                },
                Err(error) => {
                    assert(checks[token_index as int] == Some(error));
                    proof {
                        store::lemma_first_error(checks, token_index as int);
                    }
                    return Err(error);
                },
            }
            token_index = token_index + 1;
        }
        proof {
            store::lemma_first_error(checks, token_index as int);
        }
        Ok(())
    }
}

/// The four indices of one gathered token.
fn gather_plan_indices(
    sequence: &PagedKvSequence,
    block_size: usize,
    row: usize,
    max_len: usize,
    token_index: usize,
) -> (result: Result<(u32, u32, u32, u32), PagedKvStorageError>)
    requires
        sequence.block_size > 0,
        token_index < sequence.token_len <= max_len,
    ensures
        match result {
            Ok((page, offset, row_index, target)) => {
                &&& gather_plan_token_error(
                    *sequence,
                    block_size,
                    row as int,
                    max_len,
                    token_index as int,
                ) is None
                &&& gather_entry(*sequence, row as int, max_len as int, token_index as int) == (
                GatherEntry {
                    page_id: page as int,
                    token_offset: offset as int,
                    row: row_index as int,
                    target: target as int,
                })
            },
            Err(error) => gather_plan_token_error(
                *sequence,
                block_size,
                row as int,
                max_len,
                token_index as int,
            ) == Some(error),
        },
{
    let (page_id, token_offset) = sequence.page_slot(token_index)?;
    let page: u32 = match to_u32(page_id) {
        Some(page) => page,
        None => {
            return Err(PagedKvStorageError::MissingPage { page_id });
        },
    };
    let offset: u32 = match index_to_u32(token_offset) {
        Some(offset) => offset,
        None => {
            return Err(PagedKvStorageError::InvalidTokenOffset { token_offset, block_size });
        },
    };
    let row_index: u32 = match index_to_u32(row) {
        Some(row_index) => row_index,
        None => {
            return Err(
                PagedKvStorageError::InvalidTokenIndex { token_index: row, token_len: usize::MAX },
            );
        },
    };
    let target_token: usize = max_len - sequence.token_len + token_index;
    let target: u32 = match index_to_u32(target_token) {
        Some(target) => target,
        None => {
            return Err(
                PagedKvStorageError::InvalidTokenIndex {
                    token_index: target_token,
                    token_len: max_len,
                },
            );
        },
    };
    Ok((page, offset, row_index, target))
}

/// Pages of a batch in compressed-row form.
#[derive(Debug, Clone)]
pub struct PagedKvBatchPageTable {
    pub indptr: Vec<u32>,
    pub indices: Vec<u32>,
    pub last_page_lens: Vec<u32>,
    pub seq_lens: Vec<u32>,
}

impl Default for PagedKvBatchPageTable {
    fn default() -> (result: Self)
        ensures
            result.indptr@.len() == 0,
            result.indices@.len() == 0,
            result.last_page_lens@.len() == 0,
            result.seq_lens@.len() == 0,
    {
        PagedKvBatchPageTable {
            indptr: Vec::new(),
            indices: Vec::new(),
            last_page_lens: Vec::new(),
            seq_lens: Vec::new(),
        }
    }
}

/// The page ids of the first `rows` rows, row after row.
pub open spec fn table_pages(sequences: Seq<Option<&PagedKvSequence>>, rows: int) -> Seq<u64>
    decreases rows,
{
    if rows <= 0 {
        Seq::empty()
    } else {
        table_pages(sequences, rows - 1) + match sequences[rows - 1] {
            Some(sequence) => sequence.page_ids(),
            None => Seq::empty(),
        }
    }
}

/// Tokens in the last used page of a row.
pub open spec fn last_page_fill(token_len: int, block_size: int) -> int {
    if token_len == 0 {
        0
    } else {
        (token_len - 1) % block_size + 1
    }
}

/// Why a row cannot enter a page table.
pub open spec fn table_row_error(
    sequences: Seq<Option<&PagedKvSequence>>,
    block_size: usize,
    row: int,
) -> Option<PagedKvStorageError> {
    let pages = table_pages(sequences, row + 1).len();
    let overflow = if pages > u32::MAX {
        Some(
            PagedKvStorageError::InvalidTokenIndex {
                token_index: pages as usize,
                token_len: usize::MAX,
            },
        )
    } else {
        None
    };
    match sequences[row] {
        None => overflow,
        Some(sequence) => if sequence.block_size != block_size {
            Some(
                PagedKvStorageError::BlockSizeMismatch {
                    storage_block_size: block_size,
                    sequence_block_size: sequence.block_size,
                },
            )
        } else {
            match store::first_error(
                Seq::new(
                    sequence.blocks@.len(),
                    |k: int| table_page_error(sequence.blocks@[k].id),
                ),
            ) {
                Some(error) => Some(error),
                None => match overflow {
                    Some(error) => Some(error),
                    None => if sequence.token_len > u32::MAX {
                        Some(
                            PagedKvStorageError::InvalidTokenIndex {
                                token_index: sequence.token_len,
                                token_len: usize::MAX,
                            },
                        )
                    } else {
                        None
                    },
                },
            }
        },
    }
}

pub open spec fn table_page_error(page_id: u64) -> Option<PagedKvStorageError> {
    if page_id > u32::MAX {
        Some(PagedKvStorageError::MissingPage { page_id })
    } else {
        None
    }
}

/// Why a page table cannot be built: its first bad row.
pub open spec fn table_error(
    sequences: Seq<Option<&PagedKvSequence>>,
    block_size: usize,
) -> Option<PagedKvStorageError> {
    store::first_error(
        Seq::new(sequences.len(), |r: int| table_row_error(sequences, block_size, r)),
    )
}

impl PagedKvBatchPageTable {
    /// The table lists the pages and lengths of the first `rows` rows.
    pub open spec fn covers(
        &self,
        sequences: Seq<Option<&PagedKvSequence>>,
        block_size: int,
        rows: int,
    ) -> bool {
        &&& self.indptr@.len() == rows + 1
        &&& self.seq_lens@.len() == rows
        &&& self.last_page_lens@.len() == rows
        &&& self.indices@.len() == table_pages(sequences, rows).len()
        &&& forall|k: int|
            0 <= k < self.indices@.len() ==> #[trigger] self.indices@[k] == table_pages(
                sequences,
                rows,
            )[k]
        &&& forall|r: int|
            0 <= r <= rows ==> #[trigger] self.indptr@[r] == table_pages(sequences, r).len()
        &&& forall|r: int|
            0 <= r < rows ==> #[trigger] self.seq_lens@[r] == match sequences[r] {
                Some(sequence) => sequence.token_len as int,
                None => 0,
            }
        &&& forall|r: int|
            0 <= r < rows ==> #[trigger] self.last_page_lens@[r] == match sequences[r] {
                Some(sequence) => last_page_fill(sequence.token_len as int, block_size),
                None => 0,
            }
    }

    pub fn from_sequences(block_size: usize, sequences: &[&PagedKvSequence]) -> (result: Result<
        Self,
        PagedKvStorageError,
    >)
        requires
            forall|r: int| 0 <= r < sequences@.len() ==> (#[trigger] sequences@[r]).block_size > 0,
        ensures
            ({
                let optional = Seq::new(sequences@.len(), |r: int| Some(sequences@[r]));
                match result {
                    Ok(table) => {
                        &&& table_error(optional, block_size) is None
                        &&& table.covers(optional, block_size as int, sequences@.len() as int)
                    },
                    Err(error) => table_error(optional, block_size) == Some(error),
                }
            }),
    {
        let mut optional: Vec<Option<&PagedKvSequence>> = Vec::new();
        let mut i: usize = 0;
        while i < sequences.len()
            invariant
                i <= sequences@.len(),
                optional@.len() == i,
                forall|r: int| 0 <= r < i ==> #[trigger] optional@[r] == Some(sequences@[r]),
            decreases sequences@.len() - i,
        {
            optional.push(Some(sequences[i]));
            i = i + 1;
        }
        assert(optional@ =~= Seq::new(sequences@.len(), |r: int| Some(sequences@[r])));
        Self::from_optional_sequences(block_size, optional.as_slice())
    }

    /// Lists the pages of each row; a row without a sequence has none.
    pub fn from_optional_sequences(
        block_size: usize,
        sequences: &[Option<&PagedKvSequence>],
    ) -> (result: Result<Self, PagedKvStorageError>)
        requires
            forall|r: int|
                0 <= r < sequences@.len() ==> match #[trigger] sequences@[r] {
                    Some(sequence) => sequence.block_size > 0,
                    None => true,
                },
        ensures
            match result {
                Ok(table) => {
                    &&& table_error(sequences@, block_size) is None
                    &&& table.covers(sequences@, block_size as int, sequences@.len() as int)
                },
                Err(error) => table_error(sequences@, block_size) == Some(error),
            },
    {
        let mut table = PagedKvBatchPageTable::default();
        table.indptr.push(0);
        let ghost checks = Seq::new(
            sequences@.len(),
            |r: int| table_row_error(sequences@, block_size, r),
        );
        let mut row: usize = 0;
        while row < sequences.len()
            invariant
                row <= sequences@.len(),
                forall|r: int|
                    0 <= r < sequences@.len() ==> match #[trigger] sequences@[r] {
                        Some(sequence) => sequence.block_size > 0,
                        None => true,
                    },
                checks == Seq::new(
                    sequences@.len(),
                    |r: int| table_row_error(sequences@, block_size, r),
                ),
                forall|r: int| 0 <= r < row ==> #[trigger] checks[r] is None,
                table.covers(sequences@, block_size as int, row as int),
            decreases sequences@.len() - row,
        {
            let ghost held = table_pages(sequences@, row as int);
            let ghost want = table_pages(sequences@, row + 1);
            assert(want == held + match sequences@[row as int] {
                Some(sequence) => sequence.page_ids(),
                None => Seq::empty(),
            });
            let ghost before = table;
            let outcome = match sequences[row] {
                None => {
                    assert(want =~= held);
                    table.close_row(0, 0)
                },
                Some(sequence) => {
                    assert(sequences@[row as int] is Some);
                    table.append_row(sequence, block_size)
                },
            };
            match outcome {
                Ok(_) => {},
                Err(error) => {
                    assert(checks[row as int] == Some(error));
                    proof {
                        store::lemma_first_error(checks, row as int);
                    }
                    return Err(error);
                },
            }
            assert(checks[row as int] is None);
            assert(table.covers(sequences@, block_size as int, row + 1)) by {
                assert forall|r: int| 0 <= r <= row + 1 implies #[trigger] table.indptr@[r]
                    == table_pages(sequences@, r).len() by {
                    if r <= row {
                        assert(table.indptr@[r] == before.indptr@[r]);
                    }
                }
                assert forall|k: int| 0 <= k < table.indices@.len() implies
                    #[trigger] table.indices@[k] == want[k] by {
                    if k < held.len() {
                        assert(before.indices@[k] == held[k]);
                    }
                }
                assert forall|r: int| 0 <= r < row + 1 implies #[trigger] table.last_page_lens@[r]
                    == match sequences@[r] {
                    Some(sequence) => last_page_fill(
                        sequence.token_len as int,
                        block_size as int,
                    ),
                    None => 0,
                } by {
                    if r < row {
                        assert(table.last_page_lens@[r] == before.last_page_lens@[r]);
                    } else if sequences@[r] is Some && sequences@[r]->0.token_len > 0 {
                        vstd::arithmetic::div_mod::lemma_mod_decreases(
                            (sequences@[r]->0.token_len - 1) as nat,
                            block_size as nat,
                        );
                    }
                }
                assert forall|r: int| 0 <= r < row + 1 implies #[trigger] table.seq_lens@[r]
                    == match sequences@[r] {
                    Some(sequence) => sequence.token_len as int,
                    None => 0,
                } by {
                    if r < row {
                        assert(table.seq_lens@[r] == before.seq_lens@[r]);
                    }
                }
            }
            row = row + 1;
        }
        proof {
            store::lemma_first_error(checks, row as int);
        }
        Ok(table)
    }

    /// Ends a row after its pages were listed.
    fn close_row(&mut self, token_len: usize, last_page_len: u32) -> (result: Result<
        (),
        PagedKvStorageError,
    >)
        ensures
            final(self).indices@ == old(self).indices@,
            match result {
                Ok(_) => {
                    &&& old(self).indices@.len() <= u32::MAX
                    &&& token_len <= u32::MAX
                    &&& final(self).indptr@ == old(self).indptr@.push(
                        old(self).indices@.len() as u32,
                    )
                    &&& final(self).seq_lens@ == old(self).seq_lens@.push(token_len as u32)
                    &&& final(self).last_page_lens@ == old(self).last_page_lens@.push(last_page_len)
                },
                Err(error) => if old(self).indices@.len() > u32::MAX {
                    error == (PagedKvStorageError::InvalidTokenIndex {
                        token_index: old(self).indices@.len() as usize,
                        token_len: usize::MAX,
                    })
                } else {
                    &&& token_len > u32::MAX
                    &&& error == (PagedKvStorageError::InvalidTokenIndex {
                        token_index: token_len,
                        token_len: usize::MAX,
                    })
                },
            },
    {
        let total: usize = self.indices.len();
        match index_to_u32(total) {
            Some(end) => {
                self.indptr.push(end);
            },
            None => {
                return Err(
                    PagedKvStorageError::InvalidTokenIndex {
                        token_index: total,
                        token_len: usize::MAX,
                    },
                );
            },
        }
        match index_to_u32(token_len) {
            Some(len) => {
                self.seq_lens.push(len);
            },
            None => {
                return Err(
                    PagedKvStorageError::InvalidTokenIndex {
                        token_index: token_len,
                        token_len: usize::MAX,
                    },
                );
            },
        }
        self.last_page_lens.push(last_page_len);
        Ok(())
    }

    /// Adds the row of one sequence.
    fn append_row(&mut self, sequence: &PagedKvSequence, block_size: usize) -> (result: Result<
        (),
        PagedKvStorageError,
    >)
        requires
            sequence.block_size > 0,
        ensures
            ({
                let pages = old(self).indices@.len() + sequence.blocks@.len();
                let bad = store::first_error(
                    Seq::new(
                        sequence.blocks@.len(),
                        |k: int| table_page_error(sequence.blocks@[k].id),
                    ),
                );
                match result {
                    Ok(_) => {
                        &&& sequence.block_size == block_size
                        &&& bad is None
                        &&& pages <= u32::MAX
                        &&& sequence.token_len <= u32::MAX
                        &&& final(self).indices@.len() == pages
                        &&& forall|k: int|
                            0 <= k < pages ==> #[trigger] final(self).indices@[k] == if k
                                < old(self).indices@.len() {
                                old(self).indices@[k] as int
                            } else {
                                sequence.page_ids()[k - old(self).indices@.len()] as int
                            }
                        &&& final(self).indptr@ == old(self).indptr@.push(pages as u32)
                        &&& final(self).seq_lens@ == old(self).seq_lens@.push(
                            sequence.token_len as u32,
                        )
                        &&& final(self).last_page_lens@ == old(self).last_page_lens@.push(
                            last_page_fill(sequence.token_len as int, block_size as int) as u32,
                        )
                    },
                    Err(error) => if sequence.block_size != block_size {
                        error == (PagedKvStorageError::BlockSizeMismatch {
                            storage_block_size: block_size,
                            sequence_block_size: sequence.block_size,
                        })
                    } else if bad is Some {
                        bad == Some(error)
                    } else if pages > u32::MAX {
                        error == (PagedKvStorageError::InvalidTokenIndex {
                            token_index: pages as usize,
                            token_len: usize::MAX,
                        })
                    } else {
                        &&& sequence.token_len > u32::MAX
                        &&& error == (PagedKvStorageError::InvalidTokenIndex {
                            token_index: sequence.token_len,
                            token_len: usize::MAX,
                        })
                    },
                }
            }),
    {
        if sequence.block_size != block_size {
            return Err(
                PagedKvStorageError::BlockSizeMismatch {
                    storage_block_size: block_size,
                    sequence_block_size: sequence.block_size,
                },
            );
        }
        let ghost checks = Seq::new(
            sequence.blocks@.len(),
            |k: int| table_page_error(sequence.blocks@[k].id),
        );
        let mut k: usize = 0;
        while k < sequence.blocks.len()
            invariant
                k <= sequence.blocks@.len(),
                sequence.block_size == block_size,
                checks == Seq::new(
                    sequence.blocks@.len(),
                    |k: int| table_page_error(sequence.blocks@[k].id),
                ),
                forall|j: int| 0 <= j < k ==> #[trigger] checks[j] is None,
                self.indices@.len() == old(self).indices@.len() + k,
                forall|j: int|
                    0 <= j < self.indices@.len() ==> #[trigger] self.indices@[j] == if j
                        < old(self).indices@.len() {
                        old(self).indices@[j] as int
                    } else {
                        sequence.page_ids()[j - old(self).indices@.len()] as int
                    },
                self.indptr@ == old(self).indptr@,
                self.seq_lens@ == old(self).seq_lens@,
                self.last_page_lens@ == old(self).last_page_lens@,
            decreases sequence.blocks@.len() - k,
        {
            let page_id: u64 = sequence.blocks[k].id;
            match to_u32(page_id) {
                Some(page) => {
                    assert(checks[k as int] is None);
                    assert(sequence.page_ids()[k as int] == page_id);
                    self.indices.push(page);
                },
                None => {
                    let error = PagedKvStorageError::MissingPage { page_id };
                    assert(checks[k as int] == Some(error));
                    proof {
                        store::lemma_first_error(checks, k as int);
                    }
                    return Err(error);
                },
            }
            k = k + 1;
        }
        proof {
            store::lemma_first_error(checks, k as int);
        }
        let last_page_len: u32 = if sequence.token_len == 0 {
            0
        } else {
            ((sequence.token_len - 1) % block_size + 1) as u32
        };
        self.close_row(sequence.token_len, last_page_len)
    }
}

/// Row boundaries never go down and end with the number of listed pages.
pub proof fn law_table_boundaries(
    table: PagedKvBatchPageTable,
    sequences: Seq<Option<&PagedKvSequence>>,
    block_size: int,
    a: int,
    b: int,
)
    requires
        table.covers(sequences, block_size, sequences.len() as int),
        0 <= a <= b <= sequences.len(),
    ensures
        table.indptr@[0] == 0,
        table.indptr@[a] <= table.indptr@[b],
        table.indptr@[sequences.len() as int] == table.indices@.len(),
{
    assert(table.indptr@[0] == table_pages(sequences, 0).len());
    lemma_table_pages_prefix(sequences, a, b);
}

proof fn lemma_table_pages_prefix(sequences: Seq<Option<&PagedKvSequence>>, a: int, b: int)
    requires
        0 <= a <= b <= sequences.len(),
    ensures
        table_pages(sequences, a).len() <= table_pages(sequences, b).len(),
        forall|k: int|
            0 <= k < table_pages(sequences, a).len() ==> #[trigger] table_pages(sequences, b)[k]
                == table_pages(sequences, a)[k],
    decreases b - a,
{
    if a < b {
        lemma_table_pages_prefix(sequences, a, b - 1);
    }
}

/// The pages between a row's boundaries are that row's pages, in block order.
pub proof fn law_table_rows(
    table: PagedKvBatchPageTable,
    sequences: Seq<Option<&PagedKvSequence>>,
    block_size: int,
    row: int,
    k: int,
)
    requires
        table.covers(sequences, block_size, sequences.len() as int),
        0 <= row < sequences.len(),
        sequences[row] is Some,
        0 <= k < sequences[row]->0.blocks@.len(),
    ensures
        table.indptr@[row + 1] == table.indptr@[row] + sequences[row]->0.blocks@.len(),
        table.indices@[table.indptr@[row] + k] == sequences[row]->0.blocks@[k].id,
{
    let n = sequences.len() as int;
    lemma_table_pages_prefix(sequences, row + 1, n);
    let held = table_pages(sequences, row);
    let own = sequences[row]->0;
    assert(table_pages(sequences, row + 1) == held + own.page_ids());
    assert(table_pages(sequences, row + 1)[held.len() + k] == own.page_ids()[k]);
    assert(table.indptr@[row] == held.len());
    assert(table.indptr@[row + 1] == table_pages(sequences, row + 1).len());
    assert(table_pages(sequences, n)[held.len() + k] == own.page_ids()[k]);
}

proof fn lemma_token_is_listed(
    sequences: Seq<Option<&PagedKvSequence>>,
    max_len: int,
    rows: int,
    row: int,
    token: int,
) -> (k: int)
    requires
        0 <= row < rows <= sequences.len(),
        sequences[row] is Some,
        0 <= token < sequences[row]->0.token_len,
    ensures
        0 <= k < gather_entries(sequences, max_len, rows).len(),
        gather_entries(sequences, max_len, rows)[k] == gather_entry(
            *sequences[row]->0,
            row,
            max_len,
            token,
        ),
    decreases rows,
{
    let head = gather_entries(sequences, max_len, rows - 1);
    if row < rows - 1 {
        lemma_token_is_listed(sequences, max_len, rows - 1, row, token)
    } else {
        head.len() + token
    }
}

proof fn lemma_listed_token(
    sequences: Seq<Option<&PagedKvSequence>>,
    max_len: int,
    rows: int,
    k: int,
) -> (place: (int, int))
    requires
        0 <= rows <= sequences.len(),
        0 <= k < gather_entries(sequences, max_len, rows).len(),
    ensures
        0 <= place.0 < rows,
        sequences[place.0] is Some,
        0 <= place.1 < sequences[place.0]->0.token_len,
        gather_entries(sequences, max_len, rows)[k] == gather_entry(
            *sequences[place.0]->0,
            place.0,
            max_len,
            place.1,
        ),
    decreases rows,
{
    let head = gather_entries(sequences, max_len, rows - 1);
    if k < head.len() {
        lemma_listed_token(sequences, max_len, rows - 1, k)
    } else {
        (rows - 1, k - head.len())
    }
}

/// Every token of every row is gathered from its page and its place in the page, into its own row,
/// as far from the row's end as it is from the end of its sequence.
pub proof fn law_every_token_is_gathered(
    plan: PagedKvGatherPlan,
    sequences: Seq<Option<&PagedKvSequence>>,
    max_len: int,
    row: int,
    token: int,
)
    requires
        plan.lists(gather_entries(sequences, max_len, sequences.len() as int)),
        0 <= row < sequences.len(),
        sequences[row] is Some,
        0 <= token < sequences[row]->0.token_len,
    ensures
        exists|k: int|
            0 <= k < plan.page_ids@.len() && #[trigger] plan.page_ids@[k]
                == sequences[row]->0.blocks@[token / sequences[row]->0.block_size as int].id
                && plan.token_offsets@[k] == token % sequences[row]->0.block_size as int
                && plan.row_indices@[k] == row && max_len - plan.target_token_indices@[k]
                == sequences[row]->0.token_len - token,
{
    let n = sequences.len() as int;
    let entries = gather_entries(sequences, max_len, n);
    let k = lemma_token_is_listed(sequences, max_len, n, row, token);
    assert(entries[k] == entries[k]);
    assert(plan.page_ids@[k] == entries[k].page_id);
}

/// Nothing else is gathered: whatever a plan lists goes into a row that has tokens, and there into
/// one of the last places, as many as there are tokens.
pub proof fn law_only_tokens_are_gathered(
    plan: PagedKvGatherPlan,
    sequences: Seq<Option<&PagedKvSequence>>,
    max_len: int,
    k: int,
)
    requires
        plan.lists(gather_entries(sequences, max_len, sequences.len() as int)),
        0 <= k < plan.page_ids@.len(),
    ensures
        plan.row_indices@[k] < sequences.len(),
        sequences[plan.row_indices@[k] as int] is Some,
        max_len - sequences[plan.row_indices@[k] as int]->0.token_len
            <= plan.target_token_indices@[k] < max_len,
{
    let n = sequences.len() as int;
    let entries = gather_entries(sequences, max_len, n);
    let (row, token) = lemma_listed_token(sequences, max_len, n, k);
    assert(entries[k] == entries[k]);
    assert(plan.row_indices@[k] == entries[k].row);
}

/// A row's last page holds what the pages before it leave over: full pages and the last one
/// together hold all tokens, and no page is empty but where there are no tokens.
pub proof fn law_last_page_holds_the_rest(token_len: int, block_size: int, full_pages: int)
    requires
        token_len >= 0,
        block_size > 0,
        full_pages >= 0,
        full_pages * block_size < token_len <= (full_pages + 1) * block_size || (token_len == 0
            && full_pages == 0),
    ensures
        full_pages * block_size + last_page_fill(token_len, block_size) == token_len,
{
    if token_len > 0 {
        let rest = token_len - 1 - full_pages * block_size;
        assert(0 <= rest < block_size) by (nonlinear_arith)
            requires
                full_pages * block_size < token_len <= (full_pages + 1) * block_size,
                rest == token_len - 1 - full_pages * block_size,
        ;
        vstd::arithmetic::div_mod::lemma_fundamental_div_mod_converse(
            token_len - 1,
            block_size,
            full_pages,
            rest,
        );
    }
}

} // verus!
