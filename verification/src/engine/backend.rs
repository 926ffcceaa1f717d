//! What the engine needs of a model besides its forward passes.
use crate::tensors::LayerKvCaches;
use crate::vocabulary;
use candle_core::Tensor;
use tokenizers::Tokenizer;
use vstd::prelude::*;

verus! {

/// Timings of a model's own batch setup.
#[derive(Debug, Clone, Copy, PartialEq, Eq, Structural)]
pub struct BatchDecodeSetupTimings {
    pub kv_len_scan_us: u64,
    pub pad_stack_us: u64,
    pub contiguous_us: u64,
    pub extra_room_alloc_us: u64,
    pub cache_assign_us: u64,
    pub batched_equal_length_layers: u64,
    pub batched_ragged_layers: u64,
    pub batched_ragged_rows: u64,
    pub total_us: u64,
    pub layers: usize,
    pub sequences: usize,
}

/// Timings of a model's own batch extraction.
#[derive(Debug, Clone, Copy, PartialEq, Eq, Structural)]
pub struct BatchDecodeExtractTimings {
    pub narrow_us: u64,
    pub contiguous_us: u64,
    pub cache_clear_us: u64,
    pub total_us: u64,
    pub layers: usize,
    pub sequences: usize,
}

impl Default for BatchDecodeSetupTimings {
    fn default() -> (result: Self)
        ensures
            result == (BatchDecodeSetupTimings {
                kv_len_scan_us: 0,
                pad_stack_us: 0,
                contiguous_us: 0,
                extra_room_alloc_us: 0,
                cache_assign_us: 0,
                batched_equal_length_layers: 0,
                batched_ragged_layers: 0,
                batched_ragged_rows: 0,
                total_us: 0,
                layers: 0,
                sequences: 0,
            }),
    {
        BatchDecodeSetupTimings {
            kv_len_scan_us: 0,
            pad_stack_us: 0,
            contiguous_us: 0,
            extra_room_alloc_us: 0,
            cache_assign_us: 0,
            batched_equal_length_layers: 0,
            batched_ragged_layers: 0,
            batched_ragged_rows: 0,
            total_us: 0,
            layers: 0,
            sequences: 0,
        }
    }
}

impl Default for BatchDecodeExtractTimings {
    fn default() -> (result: Self)
        ensures
            result == (BatchDecodeExtractTimings {
                narrow_us: 0,
                contiguous_us: 0,
                cache_clear_us: 0,
                total_us: 0,
                layers: 0,
                sequences: 0,
            }),
    {
        BatchDecodeExtractTimings {
            narrow_us: 0,
            contiguous_us: 0,
            cache_clear_us: 0,
            total_us: 0,
            layers: 0,
            sequences: 0,
        }
    }
}

/// Id of the token that ends a chat turn, where the vocabulary does not say.
pub const IM_END: u32 = 151645;

/// Id of the token that ends a text, where the vocabulary does not say.
pub const END_OF_TEXT: u32 = 151643;

/// The ids that end a sequence: those of the two tokens that do, as far as they are known.
pub open spec fn ends(im_end: Option<u32>, end_of_text: Option<u32>) -> Seq<u32> {
    match (im_end, end_of_text) {
        (Some(first), Some(second)) => seq![first, second],
        (Some(first), None) => seq![first],
        (None, Some(second)) => seq![second],
        (None, None) => seq![IM_END, END_OF_TEXT],
    }
}

/// What the vocabulary has for a token.
pub open spec fn known_id(tokenizer: Tokenizer, token: Seq<char>) -> Option<u32> {
    if vocabulary::vocabulary(tokenizer).contains_key(token) {
        Some(vocabulary::vocabulary(tokenizer)[token])
    } else {
        None
    }
}

/// The ids that end a sequence, from those that the vocabulary has.
pub fn eos_ids(im_end: Option<u32>, end_of_text: Option<u32>) -> (result: Vec<u32>)
    ensures
        result@ == ends(im_end, end_of_text),
        result@.len() > 0,
{
    let mut ids: Vec<u32> = Vec::new();
    if let Some(id) = im_end {
        ids.push(id);
    }
    if let Some(id) = end_of_text {
        ids.push(id);
    }
    if ids.len() == 0 {
        ids.push(IM_END);
        ids.push(END_OF_TEXT);
    }
    ids
}

/// The ids that end a sequence of the model with this tokenizer. A chat turn ends with
/// `<|im_end|>`, a text with `<|endoftext|>`.
pub fn eos_token_id(tokenizer: &Tokenizer) -> (result: Vec<u32>)
    ensures
        result@ == ends(
            known_id(*tokenizer, "<|im_end|>"@),
            known_id(*tokenizer, "<|endoftext|>"@),
        ),
{
    eos_ids(
        vocabulary::token_to_id(tokenizer, "<|im_end|>"),
        vocabulary::token_to_id(tokenizer, "<|endoftext|>"),
    )
}

/// What is kept of row `r`: its caches, or nothing where the row is to be dropped.
pub open spec fn selected(
    extracted: Seq<LayerKvCaches>,
    keep: Seq<bool>,
    r: int,
) -> Seq<Option<(Tensor, Tensor)>> {
    if r < keep.len() && !keep[r] {
        super::sequence::no_caches(extracted[r]@.len() as int)
    } else {
        extracted[r]@
    }
}

/// Drops the caches of rows that are not kept.
pub fn select_rows(extracted: Vec<LayerKvCaches>, keep: &[bool]) -> (result: Vec<LayerKvCaches>)
    ensures
        result@.len() == extracted@.len(),
        forall|r: int|
            0 <= r < result@.len() ==> (#[trigger] result@[r])@ == selected(
                extracted@,
                keep@,
                r,
            ),
{
    let mut rows: Vec<LayerKvCaches> = extracted;
    let mut r: usize = 0;
    while r < rows.len()
        invariant
            r <= rows@.len(),
            rows@.len() == extracted@.len(),
            forall|j: int|
                0 <= j < r ==> (#[trigger] rows@[j])@ == selected(extracted@, keep@, j),
            forall|j: int| r <= j < rows@.len() ==> #[trigger] rows@[j] == extracted@[j],
        decreases rows@.len() - r,
    {
        if r < keep.len() && !keep[r] {
            let layers: usize = rows[r].len();
            rows.set(r, super::sequence::empty_caches(layers));
        }
        r = r + 1;
    }
    rows
}

/// A sequence ends at every end token that the vocabulary knows and at no other; where it knows
/// none, at the usual two.
pub proof fn law_known_ends_end(im_end: Option<u32>, end_of_text: Option<u32>, token: u32)
    ensures
        im_end == Some(token) || end_of_text == Some(token) ==> ends(
            im_end,
            end_of_text,
        ).contains(token),
        im_end is Some || end_of_text is Some ==> (ends(im_end, end_of_text).contains(token)
            ==> im_end == Some(token) || end_of_text == Some(token)),
        im_end is None && end_of_text is None ==> (ends(im_end, end_of_text).contains(token)
            <==> token == 151645 || token == 151643),
{
    let all = ends(im_end, end_of_text);
    if all.len() > 0 {
        assert(all.contains(all[0]));
    }
    if all.len() > 1 {
        assert(all.contains(all[1]));
    }
}

/// A row that is kept, or of which nothing is said, keeps its caches; of a row that is dropped no
/// layer is left.
pub proof fn law_only_dropped_rows_lose_caches(
    extracted: Seq<LayerKvCaches>,
    keep: Seq<bool>,
    r: int,
)
    requires
        0 <= r < extracted.len(),
    ensures
        selected(extracted, keep, r).len() == extracted[r]@.len(),
        r >= keep.len() || keep[r] ==> selected(extracted, keep, r) == extracted[r]@,
        r < keep.len() && !keep[r] ==> forall|i: int|
            0 <= i < extracted[r]@.len() ==> (#[trigger] selected(extracted, keep, r)[i]) is None,
{
}

} // verus!
