//! One request on its way through the engine.
use crate::paged_kv::PagedKvSequence;
use crate::tensors::LayerKvCaches;
use vstd::prelude::*;

verus! {

/// Where a sequence stands.
#[derive(Debug, Clone, Copy, PartialEq, Eq, Structural)]
pub enum SequenceStatus {
    Waiting,
    Running,
}

/// Why a sequence ended.
#[derive(Debug, Clone, Copy, PartialEq, Eq, Structural)]
pub enum FinishReason {
    /// An end-of-sequence token was generated.
    Stop,
    /// The token limit was reached.
    Length,
}

/// State of one request.
///
/// Sampling parameters are bit patterns: `temperature` and `top_p` of doubles,
/// `repetition_penalty` of a single.
pub struct Sequence {
    pub id: u64,
    pub request_id: String,
    pub status: SequenceStatus,
    pub tokens: Vec<u32>,
    pub prompt_len: usize,
    pub kv_caches: LayerKvCaches,
    pub paged_kv: PagedKvSequence,
    pub sampling_seed: u64,
    pub temperature: Option<u64>,
    pub top_p: Option<u64>,
    pub top_k: Option<usize>,
    pub max_tokens: usize,
    pub eos_token_id: Vec<u32>,
    pub repetition_penalty: u32,
    pub repeat_last_n: usize,
}

impl Sequence {
    /// The prompt is part of the tokens, and the page table is in order.
    pub open spec fn wf(&self) -> bool {
        &&& self.prompt_len <= self.tokens@.len()
        &&& self.paged_kv.wf()
    }

    /// Tokens generated so far.
    pub open spec fn generated(&self) -> int {
        self.tokens@.len() - self.prompt_len
    }

    /// The last token ends the sequence.
    pub open spec fn at_eos(&self) -> bool {
        &&& self.generated() > 0
        &&& self.eos_token_id@.contains(self.tokens@.last())
    }

    /// Some layer holds keys and values.
    pub open spec fn has_caches(&self) -> bool {
        exists|i: int| 0 <= i < self.kv_caches@.len() && (#[trigger] self.kv_caches@[i]) is Some
    }

    /// Position of the first token of the next forward pass: 0 before anything was generated,
    /// else that of the last token.
    pub open spec fn next_position(&self) -> int {
        if self.generated() == 0 {
            0
        } else {
            self.tokens@.len() - 1
        }
    }

    /// Tokens of the next forward pass: the whole prompt first, then one token at a time.
    pub open spec fn next_tokens(&self) -> Seq<u32> {
        if self.generated() == 0 {
            self.tokens@
        } else {
            self.tokens@.skip(self.tokens@.len() - 1)
        }
    }

    pub fn num_generated(&self) -> (result: usize)
        requires
            self.wf(),
        ensures
            result == self.generated(),
    {
        self.tokens.len() - self.prompt_len
    }

    fn ends_with_eos(&self) -> (result: bool)
        requires
            self.wf(),
        ensures
            result == self.at_eos(),
    {
        if self.num_generated() == 0 {
            return false;
        }
        let last: u32 = self.tokens[self.tokens.len() - 1];
        let mut i: usize = 0;
        while i < self.eos_token_id.len()
            invariant
                i <= self.eos_token_id@.len(),
                self.generated() > 0,
                last == self.tokens@.last(),
                forall|j: int| 0 <= j < i ==> #[trigger] self.eos_token_id@[j] != last,
            decreases self.eos_token_id@.len() - i,
        {
            if self.eos_token_id[i] == last {
                assert(self.eos_token_id@[i as int] == last);
                return true;
            }
            i = i + 1;
        }
        false
    }

    /// Whether generation is over: the last token ends the sequence, or the limit is reached.
    pub fn should_stop(&self) -> (result: bool)
        requires
            self.wf(),
        ensures
            result == (self.at_eos() || self.generated() >= self.max_tokens),
    {
        self.ends_with_eos() || self.num_generated() >= self.max_tokens
    }

    pub fn finish_reason(&self) -> (result: FinishReason)
        requires
            self.wf(),
        ensures
            result == if self.at_eos() {
                FinishReason::Stop
            } else {
                FinishReason::Length
            },
    {
        if self.ends_with_eos() {
            FinishReason::Stop
        } else {
            FinishReason::Length
        }
    }

    /// Position of the first token of the next forward pass: 0 before anything was generated,
    /// else that of the last token.
    pub fn start_pos(&self) -> (result: usize)
        requires
            self.wf(),
        ensures
            result == self.next_position(),
    {
        if self.num_generated() == 0 {
            0
        } else {
            self.tokens.len() - 1
        }
    }

    /// Tokens of the next forward pass: the whole prompt first, then one token at a time.
    pub fn next_input_ids(&self) -> (result: &[u32])
        requires
            self.wf(),
        ensures
            result@ == self.next_tokens(),
    {
        if self.num_generated() == 0 {
            self.tokens.as_slice()
        } else {
            let n: usize = self.tokens.len();
            let tail = vstd::slice::slice_subrange(self.tokens.as_slice(), n - 1, n);
            assert(tail@ =~= self.tokens@.skip(n - 1));
            tail
        }
    }

    /// Whether some layer holds keys and values.
    pub fn any_cache(&self) -> (result: bool)
        ensures
            result == self.has_caches(),
    {
        let mut i: usize = 0;
        while i < self.kv_caches.len()
            invariant
                i <= self.kv_caches@.len(),
                forall|j: int| 0 <= j < i ==> (#[trigger] self.kv_caches@[j]) is None,
            decreases self.kv_caches@.len() - i,
        {
            if self.kv_caches[i].is_some() {
                assert(self.kv_caches@[i as int] is Some);
                return true;
            }
            i = i + 1;
        }
        false
    }
}

/// What [`empty_caches`] returns.
pub open spec fn no_caches(layers: int) -> Seq<Option<(candle_core::Tensor, candle_core::Tensor)>> {
    Seq::new(layers as nat, |i: int| None)
}

/// Caches of `layers` layers that hold nothing.
pub fn empty_caches(layers: usize) -> (result: LayerKvCaches)
    ensures
        result@ == no_caches(layers as int),
{
    let mut result: LayerKvCaches = Vec::with_capacity(layers);
    let mut i: usize = 0;
    while i < layers
        invariant
            i <= layers,
            result@ =~= no_caches(i as int),
        decreases layers - i,
    {
        result.push(None);
        i = i + 1;
    }
    result
}

/// A fed sequence continues where it stopped: what one forward pass computes and what went
/// before make up all its tokens. The first pass is fed from the beginning, each later one with
/// the one token that came last.
pub proof fn law_input_continues(sequence: Sequence)
    requires
        sequence.wf(),
    ensures
        sequence.tokens@ == sequence.tokens@.take(sequence.next_position())
            + sequence.next_tokens(),
        sequence.tokens@.len() == sequence.prompt_len ==> sequence.next_position() == 0,
        sequence.tokens@.len() > sequence.prompt_len ==> sequence.next_tokens()
            == seq![sequence.tokens@.last()],
{
    assert(sequence.tokens@ =~= sequence.tokens@.take(sequence.next_position())
        + sequence.next_tokens());
    if sequence.tokens@.len() > sequence.prompt_len {
        assert(sequence.next_tokens() =~= seq![sequence.tokens@.last()]);
    }
}

} // verus!
