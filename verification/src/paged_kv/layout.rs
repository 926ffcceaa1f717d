//! Shape of the paged cache and the errors of its operations.
use crate::text;
use vstd::prelude::*;
use vstd::string::*;

verus! {

/// Dimensions of one model's KV cache.
#[derive(Debug, Clone, Copy, PartialEq, Eq, Structural)]
pub struct PagedKvLayout {
    pub num_layers: usize,
    pub num_kv_heads: usize,
    pub head_dim: usize,
    pub dtype_size_bytes: usize,
}

impl PagedKvLayout {
    /// Bytes that one block of `block_size` tokens takes over all layers, keys and values.
    pub open spec fn block_bytes(&self, block_size: int) -> int {
        self.num_layers * 2 * self.num_kv_heads * block_size * self.head_dim
            * self.dtype_size_bytes
    }

    /// Values of one token in one plane of one layer.
    pub open spec fn width(&self) -> int {
        self.num_kv_heads * self.head_dim
    }

    /// Values of one page: both planes of every layer.
    pub open spec fn page_len(&self, block_size: int) -> int {
        self.num_layers * (2 * (block_size * self.width()))
    }

    /// The intermediate products of [`Self::bytes_per_block`] fit the machine.
    pub open spec fn block_bytes_fit(&self, block_size: int) -> bool {
        &&& self.num_layers * 2 <= u64::MAX
        &&& self.num_layers * 2 * self.num_kv_heads <= u64::MAX
        &&& self.num_layers * 2 * self.num_kv_heads * block_size <= u64::MAX
        &&& self.num_layers * 2 * self.num_kv_heads * block_size * self.head_dim <= u64::MAX
        &&& self.block_bytes(block_size) <= u64::MAX
    }

    pub fn bytes_per_block(&self, block_size: usize) -> (result: u64)
        requires
            self.block_bytes_fit(block_size as int),
        ensures
            result == self.block_bytes(block_size as int),
    {
        let planes: u64 = (self.num_layers as u64) * 2;
        let heads: u64 = planes * (self.num_kv_heads as u64);
        let tokens: u64 = heads * (block_size as u64);
        let values: u64 = tokens * (self.head_dim as u64);
        values * (self.dtype_size_bytes as u64)
    }
}

/// Which half of a layer's page a value belongs to.
#[derive(Debug, Clone, Copy, PartialEq, Eq, Structural)]
pub enum PagedKvPlane {
    Key,
    Value,
}

impl PagedKvPlane {
    pub open spec fn spec_index(&self) -> int {
        match self {
            PagedKvPlane::Key => 0,
            PagedKvPlane::Value => 1,
        }
    }

    /// Position of the plane inside a layer.
    pub fn index(self) -> (result: usize)
        ensures
            result == self.spec_index(),
    {
        match self {
            PagedKvPlane::Key => 0,
            PagedKvPlane::Value => 1,
        }
    }
}

/// What can be wrong with a request to the paged cache.
#[derive(Debug, Clone, Copy, PartialEq, Eq, Structural)]
pub enum PagedKvStorageError {
    BlockSizeMismatch { storage_block_size: usize, sequence_block_size: usize },
    InvalidLayer { layer: usize, num_layers: usize },
    InvalidTokenIndex { token_index: usize, token_len: usize },
    InvalidTokenOffset { token_offset: usize, block_size: usize },
    MissingBlock { token_index: usize, block_index: usize },
    MissingPage { page_id: u64 },
    SequenceTooLong { token_len: usize, max_len: usize },
    TokenWidthMismatch { expected: usize, actual: usize },
    LayerValueLenMismatch { expected: usize, actual: usize },
    SequenceCountMismatch { expected: usize, actual: usize },
}

/// A message with two numbers in it.
pub open spec fn sentence(
    before: Seq<char>,
    first: nat,
    between: Seq<char>,
    second: nat,
    after: Seq<char>,
) -> Seq<char> {
    before + text::decimal(first) + between + text::decimal(second) + after
}

fn say(before: &str, first: u64, between: &str, second: u64, after: &str) -> (result: String)
    ensures
        result@ == sentence(before@, first as nat, between@, second as nat, after@),
{
    let mut out = String::from_str(before);
    text::push_decimal(&mut out, first);
    out.append(between);
    text::push_decimal(&mut out, second);
    out.append(after);
    out
}

impl PagedKvStorageError {
    /// What [`Self::message`] says.
    pub open spec fn text(&self) -> Seq<char> {
        match *self {
            PagedKvStorageError::BlockSizeMismatch { storage_block_size, sequence_block_size } => sentence(
                "paged KV block size mismatch: storage="@,
                storage_block_size as nat,
                ", sequence="@,
                sequence_block_size as nat,
                ""@,
            ),
            PagedKvStorageError::InvalidLayer { layer, num_layers } => sentence(
                "paged KV layer "@,
                layer as nat,
                " is outside "@,
                num_layers as nat,
                " layers"@,
            ),
            PagedKvStorageError::InvalidTokenIndex { token_index, token_len } => sentence(
                "paged KV token index "@,
                token_index as nat,
                " is outside token length "@,
                token_len as nat,
                ""@,
            ),
            PagedKvStorageError::InvalidTokenOffset { token_offset, block_size } => sentence(
                "paged KV token offset "@,
                token_offset as nat,
                " is outside block size "@,
                block_size as nat,
                ""@,
            ),
            PagedKvStorageError::MissingBlock { token_index, block_index } => sentence(
                "paged KV token "@,
                token_index as nat,
                " maps to missing block index "@,
                block_index as nat,
                ""@,
            ),
            PagedKvStorageError::MissingPage { page_id } => "paged KV page "@ + text::decimal(page_id as nat) + " is not initialized"@,
            PagedKvStorageError::SequenceTooLong { token_len, max_len } => sentence(
                "paged KV sequence length "@,
                token_len as nat,
                " exceeds gather width "@,
                max_len as nat,
                ""@,
            ),
            PagedKvStorageError::TokenWidthMismatch { expected, actual } => sentence(
                "paged KV token width mismatch: expected "@,
                expected as nat,
                ", got "@,
                actual as nat,
                ""@,
            ),
            PagedKvStorageError::LayerValueLenMismatch { expected, actual } => sentence(
                "paged KV layer value length mismatch: expected "@,
                expected as nat,
                ", got "@,
                actual as nat,
                ""@,
            ),
            PagedKvStorageError::SequenceCountMismatch { expected, actual } => sentence(
                "paged KV sequence count mismatch: expected "@,
                expected as nat,
                ", got "@,
                actual as nat,
                ""@,
            ),
        }
    }

    /// The error in words.
    pub fn message(&self) -> (result: String)
        ensures
            result@ == self.text(),
    {
        match self {
            PagedKvStorageError::BlockSizeMismatch { storage_block_size, sequence_block_size } => say(
                "paged KV block size mismatch: storage=",
                *storage_block_size as u64,
                ", sequence=",
                *sequence_block_size as u64,
                "",
            ),
            PagedKvStorageError::InvalidLayer { layer, num_layers } => say(
                "paged KV layer ",
                *layer as u64,
                " is outside ",
                *num_layers as u64,
                " layers",
            ),
            PagedKvStorageError::InvalidTokenIndex { token_index, token_len } => say(
                "paged KV token index ",
                *token_index as u64,
                " is outside token length ",
                *token_len as u64,
                "",
            ),
            PagedKvStorageError::InvalidTokenOffset { token_offset, block_size } => say(
                "paged KV token offset ",
                *token_offset as u64,
                " is outside block size ",
                *block_size as u64,
                "",
            ),
            PagedKvStorageError::MissingBlock { token_index, block_index } => say(
                "paged KV token ",
                *token_index as u64,
                " maps to missing block index ",
                *block_index as u64,
                "",
            ),
            PagedKvStorageError::MissingPage { page_id } => {
                let mut out = String::from_str("paged KV page ");
                text::push_decimal(&mut out, *page_id);
                out.append(" is not initialized");
                out
            },
            PagedKvStorageError::SequenceTooLong { token_len, max_len } => say(
                "paged KV sequence length ",
                *token_len as u64,
                " exceeds gather width ",
                *max_len as u64,
                "",
            ),
            PagedKvStorageError::TokenWidthMismatch { expected, actual } => say(
                "paged KV token width mismatch: expected ",
                *expected as u64,
                ", got ",
                *actual as u64,
                "",
            ),
            PagedKvStorageError::LayerValueLenMismatch { expected, actual } => say(
                "paged KV layer value length mismatch: expected ",
                *expected as u64,
                ", got ",
                *actual as u64,
                "",
            ),
            PagedKvStorageError::SequenceCountMismatch { expected, actual } => say(
                "paged KV sequence count mismatch: expected ",
                *expected as u64,
                ", got ",
                *actual as u64,
                "",
            ),
        }
    }
}

/// A block takes the bytes of one page of values, and twice the tokens take twice the bytes.
pub proof fn law_block_is_a_page_of_bytes(layout: PagedKvLayout, block_size: int)
    ensures
        layout.block_bytes(block_size) == layout.page_len(block_size) * layout.dtype_size_bytes,
        layout.block_bytes(2 * block_size) == 2 * layout.block_bytes(block_size),
{
    let layers = layout.num_layers as int;
    let heads = layout.num_kv_heads as int;
    let dim = layout.head_dim as int;
    let size = layout.dtype_size_bytes as int;
    assert(layers * 2 * heads * block_size * dim * size == layers * (2 * (block_size * (heads
        * dim))) * size) by (nonlinear_arith);
    assert(layers * 2 * heads * (2 * block_size) * dim * size == 2 * (layers * 2 * heads
        * block_size * dim * size)) by (nonlinear_arith);
}

} // verus!
