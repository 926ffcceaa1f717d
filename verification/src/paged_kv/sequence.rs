//! Page table of one sequence.
use super::layout::PagedKvStorageError;
use crate::arith;
use vstd::prelude::*;

verus! {

/// Tokens per block unless configured otherwise.
pub const DEFAULT_BLOCK_SIZE: usize = 16;

/// One block of a sequence, backed by the page `id`.
#[derive(Debug, Clone, Copy, PartialEq, Eq, Structural)]
pub struct PagedKvBlock {
    pub id: u64,
    pub start_token: usize,
    pub len: usize,
}

/// Blocks of one sequence in token order.
#[derive(Debug, Clone)]
pub struct PagedKvSequence {
    pub block_size: usize,
    pub token_len: usize,
    pub gpu_resident_token_len: usize,
    pub blocks: Vec<PagedKvBlock>,
}

/// Tokens that block `index` holds of a sequence of `token_len` tokens.
pub open spec fn block_fill(index: int, block_size: int, token_len: int) -> int {
    let start = index * block_size;
    if token_len <= start {
        0
    } else if token_len - start < block_size {
        token_len - start
    } else {
        block_size
    }
}

/// The block list is laid out for `block_size` and `token_len`.
pub open spec fn blocks_refreshed(blocks: Seq<PagedKvBlock>, block_size: int, token_len: int) -> bool {
    forall|i: int| #![trigger blocks[i]]
        0 <= i < blocks.len() ==> {
            &&& blocks[i].start_token == i * block_size
            &&& blocks[i].len == block_fill(i, block_size, token_len)
        }
}

/// The page ids of a block list, in order.
pub open spec fn block_ids(blocks: Seq<PagedKvBlock>) -> Seq<u64> {
    Seq::new(blocks.len(), |i: int| blocks[i].id)
}

impl PagedKvSequence {
    /// Blocks cover the tokens, start where they should and hold what they should.
    pub open spec fn wf(&self) -> bool {
        &&& self.block_size > 0
        &&& self.gpu_resident_token_len <= self.token_len
        &&& self.blocks@.len() >= arith::ceil_div(self.token_len as int, self.block_size as int)
        &&& blocks_refreshed(self.blocks@, self.block_size as int, self.token_len as int)
    }

    /// Page ids in block order.
    pub open spec fn page_ids(&self) -> Seq<u64> {
        block_ids(self.blocks@)
    }

    /// No page backs two blocks.
    pub open spec fn pages_distinct(&self) -> bool {
        forall|i: int, j: int|
            0 <= i < j < self.blocks@.len() ==> (#[trigger] self.blocks@[i]).id != (
            #[trigger] self.blocks@[j]).id
    }

    /// Where token `token_index` is stored: its page and its place in the page.
    pub open spec fn slot(&self, token_index: int) -> (u64, int) {
        (self.blocks@[token_index / self.block_size as int].id, token_index % self.block_size as int)
    }

    /// Why token `token_index` has no slot, if it has none.
    pub open spec fn slot_error(&self, token_index: usize) -> Option<PagedKvStorageError> {
        let block_index = token_index as int / self.block_size as int;
        if token_index >= self.token_len {
            Some(
                PagedKvStorageError::InvalidTokenIndex {
                    token_index,
                    token_len: self.token_len,
                },
            )
        } else if block_index >= self.blocks@.len() {
            Some(
                PagedKvStorageError::MissingBlock { token_index, block_index: block_index as usize },
            )
        } else {
            None
        }
    }

    pub fn new(block_size: usize) -> (result: Self)
        ensures
            result.wf(),
            result.block_size == if block_size == 0 {
                1
            } else {
                block_size
            },
            result.token_len == 0,
            result.gpu_resident_token_len == 0,
            result.blocks@.len() == 0,
    {
        let result = PagedKvSequence {
            block_size: if block_size == 0 {
                1
            } else {
                block_size
            },
            token_len: 0,
            gpu_resident_token_len: 0,
            blocks: Vec::new(),
        };
        proof {
            arith::lemma_ceil_div(0, result.block_size as int);
        }
        result
    }

    pub fn token_len(&self) -> (result: usize)
        ensures
            result == self.token_len,
    {
        self.token_len
    }

    pub fn gpu_resident_token_len(&self) -> (result: usize)
        ensures
            result == if self.gpu_resident_token_len <= self.token_len {
                self.gpu_resident_token_len
            } else {
                self.token_len
            },
    {
        if self.gpu_resident_token_len <= self.token_len {
            self.gpu_resident_token_len
        } else {
            self.token_len
        }
    }

    /// Records that the first `token_len` tokens, as far as there are so many, are on the GPU.
    pub fn mark_gpu_resident(&mut self, token_len: usize)
        ensures
            final(self).gpu_resident_token_len == if token_len <= old(self).token_len {
                token_len
            } else {
                old(self).token_len
            },
            final(self).block_size == old(self).block_size,
            final(self).token_len == old(self).token_len,
            final(self).blocks == old(self).blocks,
            old(self).wf() ==> final(self).wf(),
    {
        self.gpu_resident_token_len = if token_len <= self.token_len {
            token_len
        } else {
            self.token_len
        };
    }

    pub fn blocks(&self) -> (result: &[PagedKvBlock])
        ensures
            result@ == self.blocks@,
    {
        self.blocks.as_slice()
    }

    pub fn page_slot(&self, token_index: usize) -> (result: Result<(u64, usize), PagedKvStorageError>)
        requires
            self.block_size > 0,
        ensures
            match result {
                Ok((page_id, token_offset)) => {
                    &&& self.slot_error(token_index) is None
                    &&& (page_id, token_offset as int) == self.slot(token_index as int)
                    &&& token_offset < self.block_size
                },
                Err(error) => self.slot_error(token_index) == Some(error),
            },
            self.wf() && token_index < self.token_len ==> result is Ok,
    {
        if token_index >= self.token_len {
            return Err(
                PagedKvStorageError::InvalidTokenIndex { token_index, token_len: self.token_len },
            );
        }
        proof {
            arith::lemma_ceil_div(self.token_len as int, self.block_size as int);
        }
        let block_index: usize = token_index / self.block_size;
        let token_offset: usize = token_index % self.block_size;
        if block_index >= self.blocks.len() {
            return Err(PagedKvStorageError::MissingBlock { token_index, block_index });
        }
        Ok((self.blocks[block_index].id, token_offset))
    }

    pub fn reserved_tokens(&self) -> (result: usize)
        requires
            self.blocks@.len() * self.block_size <= usize::MAX,
        ensures
            result == self.blocks@.len() * self.block_size,
    {
        self.blocks.len() * self.block_size
    }

    /// Reserved tokens that hold nothing.
    pub fn fragmentation_tokens(&self) -> (result: usize)
        requires
            self.blocks@.len() * self.block_size <= usize::MAX,
        ensures
            result == if self.blocks@.len() * self.block_size >= self.token_len {
                self.blocks@.len() * self.block_size - self.token_len
            } else {
                0
            },
    {
        self.reserved_tokens().saturating_sub(self.token_len)
    }

    /// The sequence after a change of the block size: emptied, unless the size is the same.
    pub open spec fn retargeted(&self, block_size: usize) -> (usize, Seq<PagedKvBlock>) {
        if self.block_size == block_size {
            (self.gpu_resident_token_len, self.blocks@)
        } else {
            (0, Seq::empty())
        }
    }

    pub(crate) fn retarget(&mut self, block_size: usize)
        requires
            block_size > 0,
            old(self).wf(),
        ensures
            final(self).wf(),
            final(self).block_size == block_size,
            final(self).blocks@ == old(self).retargeted(block_size).1,
            final(self).gpu_resident_token_len == old(self).retargeted(block_size).0,
            final(self).token_len == if old(self).block_size == block_size {
                old(self).token_len
            } else {
                0
            },
    {
        if self.block_size == block_size {
            return;
        }
        self.block_size = block_size;
        self.token_len = 0;
        self.gpu_resident_token_len = 0;
        self.blocks.clear();
        proof {
            arith::lemma_ceil_div(0, block_size as int);
        }
    }

    /// Recomputes where each block starts and how much it holds.
    pub(crate) fn refresh_block_lengths(&mut self)
        requires
            old(self).block_size > 0,
            old(self).blocks@.len() > 0 ==> (old(self).blocks@.len() - 1) * old(self).block_size
                <= usize::MAX,
        ensures
            final(self).block_size == old(self).block_size,
            final(self).token_len == old(self).token_len,
            final(self).gpu_resident_token_len == old(self).gpu_resident_token_len,
            block_ids(final(self).blocks@) == block_ids(old(self).blocks@),
            blocks_refreshed(
                final(self).blocks@,
                old(self).block_size as int,
                old(self).token_len as int,
            ),
    {
        let count: usize = self.blocks.len();
        let ghost before = self.blocks@;
        let block_size: usize = self.block_size;
        let token_len: usize = self.token_len;
        let mut idx: usize = 0;
        while idx < count
            invariant
                idx <= count,
                count == before.len(),
                self.blocks@.len() == count,
                self.block_size == block_size,
                self.token_len == token_len,
                self.gpu_resident_token_len == old(self).gpu_resident_token_len,
                block_size > 0,
                count > 0 ==> (count - 1) * block_size <= usize::MAX,
                forall|i: int| 0 <= i < count ==> (#[trigger] self.blocks@[i]).id == before[i].id,
                forall|i: int| #![trigger self.blocks@[i]]
                    0 <= i < idx ==> {
                        &&& self.blocks@[i].start_token == i * block_size
                        &&& self.blocks@[i].len == block_fill(i, block_size as int, token_len as int)
                    },
            decreases count - idx,
        {
            assert(idx * block_size <= (count - 1) * block_size) by (nonlinear_arith)
                requires
                    idx <= count - 1,
                    block_size > 0,
            ;
            let start: usize = idx * block_size;
            let rest: usize = token_len.saturating_sub(start);
            let len: usize = if rest < block_size {
                rest
            } else {
                block_size
            };
            let id: u64 = self.blocks[idx].id;
            self.blocks.set(idx, PagedKvBlock { id, start_token: start, len });
            idx = idx + 1;
        }
        assert(block_ids(self.blocks@) =~= block_ids(before));
    }
}

impl Default for PagedKvSequence {
    fn default() -> (result: Self)
        ensures
            result.wf(),
            result.block_size == DEFAULT_BLOCK_SIZE,
            result.token_len == 0,
            result.gpu_resident_token_len == 0,
            result.blocks@.len() == 0,
    {
        PagedKvSequence::new(DEFAULT_BLOCK_SIZE)
    }
}

/// A token is stored in the page of the block that it falls into, as far from the page's start as
/// it is from the block's first token.
pub proof fn law_slot_is_in_its_block(sequence: PagedKvSequence, token: int)
    requires
        sequence.wf(),
        0 <= token < sequence.token_len,
    ensures
        exists|k: int|
            0 <= k < sequence.blocks@.len() && {
                let block = #[trigger] sequence.blocks@[k];
                &&& sequence.slot(token).0 == block.id
                &&& block.start_token + sequence.slot(token).1 == token
                &&& 0 <= sequence.slot(token).1 < block.len
                &&& block.len <= sequence.block_size
            },
{
    let size = sequence.block_size as int;
    let k = token / size;
    let total = sequence.token_len as int;
    assert(0 <= k && k * size + token % size == token && 0 <= token % size < size)
        by (nonlinear_arith)
        requires
            k == token / size,
            token >= 0,
            size > 0,
    ;
    assert(k < sequence.blocks@.len()) by {
        let need = arith::ceil_div(total, size);
        arith::lemma_ceil_div(total, size);
        assert(k < need) by (nonlinear_arith)
            requires
                need * size >= total,
                token < total,
                k * size <= token,
                size > 0,
        ;
    }
    let block = sequence.blocks@[k];
    assert(block.start_token == k * size);
    assert(block.len == block_fill(k, size, total));
}

} // verus!
