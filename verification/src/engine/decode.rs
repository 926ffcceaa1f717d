//! The rows of a batched decode step, round after round.
use super::rows;
use super::sequence::Sequence;
use super::state::{self, InferenceEngine};
use super::turns;
use crate::stats::EngineStats;
use vstd::prelude::*;

verus! {

/// A batched decode step under way.
#[derive(Debug)]
pub struct BatchDecode {
    pub batch: Vec<u64>,
    /// Tokens of each row's past, when the step began.
    pub kv_lens: Vec<usize>,
    /// The longest past.
    pub original_max_kv: usize,
    /// Rows that still decode.
    pub alive: Vec<bool>,
    /// Position of the token that each row is fed next.
    pub positions: Vec<usize>,
    pub position_ids: Vec<u32>,
    /// The token that each row is fed next.
    pub last_tokens: Vec<u32>,
    /// Sequences to finish after the step.
    pub pending_finish: Vec<u64>,
    /// Sequences whose clients left during the step.
    pub pending_cancel: Vec<u64>,
    pub rounds_done: usize,
    pub total_tokens: u64,
}

/// What a round gave a row.
#[derive(Debug, Clone, Copy, PartialEq, Eq, Structural)]
pub enum RowOutcome {
    /// A token; `closed` says that the client is gone by now.
    Token { token: u32, closed: bool },
    /// Nothing: the row has failed.
    Failed,
}

/// The sequence ends with this token.
pub open spec fn ends_with(sequence: Sequence, token: u32) -> bool {
    sequence.eos_token_id@.contains(token) || sequence.generated() + 1 >= sequence.max_tokens
}

/// The row's sequence is there, and the row is fed its last token at that token's place.
pub open spec fn row_ready(engine: InferenceEngine, step: BatchDecode, r: int) -> bool {
    &&& engine.has(step.batch@[r])
    &&& engine.sequence(step.batch@[r]).generated() >= 1
    &&& step.positions@[r] + 1 == engine.sequence(step.batch@[r]).tokens@.len()
    &&& step.last_tokens@[r] == engine.sequence(step.batch@[r]).tokens@.last()
}

impl BatchDecode {
    /// One entry per row, no sequence twice, and positions that fit 32 bits to the end of the
    /// step.
    pub open spec fn wf(&self, rounds: int) -> bool {
        &&& self.kv_lens@.len() == self.batch@.len()
        &&& self.alive@.len() == self.batch@.len()
        &&& self.positions@.len() == self.batch@.len()
        &&& self.position_ids@.len() == self.batch@.len()
        &&& self.last_tokens@.len() == self.batch@.len()
        &&& self.batch@.no_duplicates()
        &&& self.rounds_done <= rounds
        &&& forall|r: int| #![trigger self.positions@[r]]
            0 <= r < self.batch@.len() ==> {
                &&& self.position_ids@[r] == self.positions@[r]
                &&& self.positions@[r] + rounds - self.rounds_done < u32::MAX
            }
        &&& self.total_tokens <= self.rounds_done * self.batch@.len()
        &&& rounds * self.batch@.len() <= u64::MAX
    }

    /// Every row that is alive is ready for the next round.
    pub open spec fn tracks(&self, engine: InferenceEngine) -> bool {
        forall|r: int|
            0 <= r < self.batch@.len() && self.alive@[r] ==> #[trigger] row_ready(engine, *self, r)
    }

    /// Where the keys and values of the next round go in a row of the batch buffers: behind the
    /// longest past and the rounds before.
    pub open spec fn append_place(&self) -> int {
        self.original_max_kv + self.rounds_done
    }

    /// Places of a row that the next round attends to: all up to its own.
    pub open spec fn attended(&self) -> int {
        self.original_max_kv + self.rounds_done + 1
    }

    /// Row `r` took a token in this round.
    pub open spec fn took(&self, outcomes: Seq<RowOutcome>, r: int) -> bool {
        self.alive@[r] && outcomes[r] is Token
    }

    /// The token that sequence `id` took, among the first `count` rows.
    pub open spec fn token_for(&self, outcomes: Seq<RowOutcome>, id: u64, count: int) -> Option<
        u32,
    >
        decreases count,
    {
        if count <= 0 {
            None
        } else if self.batch@[count - 1] == id && self.took(outcomes, count - 1) {
            Some(outcomes[count - 1]->token)
        } else {
            self.token_for(outcomes, id, count - 1)
        }
    }

    /// Tokens taken by the first `count` rows.
    pub open spec fn taken(&self, outcomes: Seq<RowOutcome>, count: int) -> int
        decreases count,
    {
        if count <= 0 {
            0
        } else {
            self.taken(outcomes, count - 1) + if self.took(outcomes, count - 1) {
                1int
            } else {
                0
            }
        }
    }

    /// Row `r` took its last token.
    pub open spec fn finishes(
        &self,
        engine: InferenceEngine,
        outcomes: Seq<RowOutcome>,
        r: int,
    ) -> bool {
        self.took(outcomes, r) && ends_with(engine.sequence(self.batch@[r]), outcomes[r]->token)
    }

    /// Row `r` would go on, but its client is gone.
    pub open spec fn leaves(
        &self,
        engine: InferenceEngine,
        outcomes: Seq<RowOutcome>,
        r: int,
    ) -> bool {
        &&& self.took(outcomes, r)
        &&& !self.finishes(engine, outcomes, r)
        &&& outcomes[r]->closed
    }

    /// The sequences that finish among the first `count` rows.
    pub open spec fn finishing(
        &self,
        engine: InferenceEngine,
        outcomes: Seq<RowOutcome>,
        count: int,
    ) -> Seq<u64>
        decreases count,
    {
        if count <= 0 {
            Seq::empty()
        } else {
            let head = self.finishing(engine, outcomes, count - 1);
            if self.finishes(engine, outcomes, count - 1) {
                head.push(self.batch@[count - 1])
            } else {
                head
            }
        }
    }

    /// The sequences whose clients left among the first `count` rows.
    pub open spec fn leaving(
        &self,
        engine: InferenceEngine,
        outcomes: Seq<RowOutcome>,
        count: int,
    ) -> Seq<u64>
        decreases count,
    {
        if count <= 0 {
            Seq::empty()
        } else {
            let head = self.leaving(engine, outcomes, count - 1);
            if self.leaves(engine, outcomes, count - 1) {
                head.push(self.batch@[count - 1])
            } else {
                head
            }
        }
    }

    /// Whether another round is due: some row is alive, and not all rounds are done.
    pub fn has_next_round(&self, rounds: usize) -> (result: bool)
        ensures
            result == (self.rounds_done < rounds && !rows::none_alive(self.alive@)),
    {
        self.rounds_done < rounds && rows::is_any_alive(&self.alive)
    }

    /// Whether the tokens that a round left on the device feed the next one as they are: no row
    /// has ended.
    pub fn feeds_from_device(&self) -> (result: bool)
        ensures
            result == rows::all_alive(self.alive@),
    {
        rows::are_all_alive(&self.alive)
    }
}

/// A step that begins: every row is alive and fed its last token.
pub open spec fn step_begun(
    engine: InferenceEngine,
    step: BatchDecode,
    batch: Seq<u64>,
    kv_lens: Seq<usize>,
    original_max_kv: usize,
) -> bool {
    &&& step.wf(engine.settings.decode_tokens_per_seq as int)
    &&& step.tracks(engine)
    &&& step.batch@ == batch
    &&& step.kv_lens@ == kv_lens
    &&& step.original_max_kv == original_max_kv
    &&& rows::all_alive(step.alive@)
    &&& step.positions@ == Seq::new(
        batch.len(),
        |r: int| (engine.sequence(batch[r]).tokens@.len() - 1) as usize,
    )
    &&& step.last_tokens@ == Seq::new(
        batch.len(),
        |r: int| engine.sequence(batch[r]).tokens@.last(),
    )
    &&& step.pending_finish@.len() == 0
    &&& step.pending_cancel@.len() == 0
    &&& step.rounds_done == 0
    &&& step.total_tokens == 0
}

/// `after` is `before` after the first `count` rows took their tokens.
pub open spec fn tokens_taken(
    before: Seq<Sequence>,
    after: Seq<Sequence>,
    step: BatchDecode,
    outcomes: Seq<RowOutcome>,
    count: int,
) -> bool {
    &&& after.len() == before.len()
    &&& forall|i: int| #![trigger after[i]]
        0 <= i < before.len() ==> match step.token_for(outcomes, before[i].id, count) {
            Some(token) => {
                &&& after[i].tokens@ == before[i].tokens@.push(token)
                &&& after[i] == (Sequence { tokens: after[i].tokens, ..before[i] })
            },
            None => after[i] == before[i],
        }
}

/// `after` is the step `before` after a round with these outcomes.
pub open spec fn round_done(
    engine: InferenceEngine,
    before: BatchDecode,
    after: BatchDecode,
    outcomes: Seq<RowOutcome>,
) -> bool {
    let n = before.batch@.len() as int;
    &&& after.batch == before.batch
    &&& after.kv_lens == before.kv_lens
    &&& after.original_max_kv == before.original_max_kv
    &&& after.rounds_done == before.rounds_done + 1
    &&& after.total_tokens == before.total_tokens + before.taken(outcomes, n)
    &&& after.alive@ == Seq::new(
        n as nat,
        |r: int|
            before.took(outcomes, r) && !before.finishes(engine, outcomes, r) && !before.leaves(
                engine,
                outcomes,
                r,
            ),
    )
    &&& after.last_tokens@ == Seq::new(
        n as nat,
        |r: int|
            if before.took(outcomes, r) {
                outcomes[r]->token
            } else {
                before.last_tokens@[r]
            },
    )
    &&& after.positions@ == Seq::new(n as nat, |r: int| (before.positions@[r] + 1) as usize)
    &&& after.position_ids@ == Seq::new(n as nat, |r: int| (before.position_ids@[r] + 1) as u32)
    &&& after.pending_finish@ == before.pending_finish@ + before.finishing(engine, outcomes, n)
    &&& after.pending_cancel@ == before.pending_cancel@ + before.leaving(engine, outcomes, n)
}

/// A round can end with these outcomes: it is one of the step's rounds, and every row that took a
/// token was ready for it.
pub open spec fn round_ready(
    engine: InferenceEngine,
    step: BatchDecode,
    outcomes: Seq<RowOutcome>,
) -> bool {
    &&& engine.wf()
    &&& step.wf(engine.settings.decode_tokens_per_seq as int)
    &&& step.rounds_done < engine.settings.decode_tokens_per_seq
    &&& outcomes.len() == step.batch@.len()
    &&& forall|r: int|
        0 <= r < outcomes.len() && step.took(outcomes, r) ==> #[trigger] row_ready(engine, step, r)
}

/// A round with these outcomes leads from one engine and step to the next: every row that took a
/// token has it, the tokens are counted, and nothing else of the engine changes.
pub open spec fn round_ran(
    before: InferenceEngine,
    after: InferenceEngine,
    first: BatchDecode,
    last: BatchDecode,
    outcomes: Seq<RowOutcome>,
) -> bool {
    &&& after.wf()
    &&& tokens_taken(
        before.sequences@,
        after.sequences@,
        first,
        outcomes,
        outcomes.len() as int,
    )
    &&& after == (InferenceEngine {
        sequences: after.sequences,
        stats: EngineStats {
            total_decode_steps: before.stats.total_decode_steps.plus(
                first.taken(outcomes, outcomes.len() as int),
            ),
            ..before.stats
        },
        ..before
    })
    &&& round_done(before, first, last, outcomes)
    &&& last.wf(after.settings.decode_tokens_per_seq as int)
    &&& last.tracks(after)
}

impl InferenceEngine {
    /// Whether the positions of all rows fit 32 bits to the end of the step, and the tokens of
    /// the step 64.
    pub fn decode_fits(&self, batch: &Vec<u64>) -> (result: bool)
        requires
            self.wf(),
        ensures
            result == self.rows_fit(batch@),
    {
        let rounds: usize = self.settings.decode_tokens_per_seq;
        let count: usize = batch.len();
        assert(rounds * count <= u128::MAX) by (nonlinear_arith)
            requires
                rounds <= u64::MAX,
                count <= u64::MAX,
        ;
        let most: u128 = (rounds as u128) * (count as u128);
        if most > u64::MAX as u128 {
            return false;
        }
        let mut r: usize = 0;
        while r < batch.len()
            invariant
                r <= batch@.len(),
                self.wf(),
                rounds == self.settings.decode_tokens_per_seq,
                rounds * batch@.len() <= u64::MAX,
                forall|j: int| 0 <= j < r ==> #[trigger] self.row_fits(batch@[j]),
            decreases batch@.len() - r,
        {
            let fits = match self.find(batch[r]) {
                Some(i) => (self.sequences[i].tokens.len() as u128) + (rounds as u128)
                    <= u32::MAX as u128,
                None => true,
            };
            if !fits {
                assert(!self.row_fits(batch@[r as int]));
                return false;
            }
            r = r + 1;
        }
        true
    }

    /// The positions of sequence `id` fit 32 bits to the end of a step.
    pub open spec fn row_fits(&self, id: u64) -> bool {
        self.has(id) ==> self.sequence(id).tokens@.len() + self.settings.decode_tokens_per_seq
            <= u32::MAX
    }

    /// The positions of all rows fit 32 bits to the end of a step, and its tokens 64.
    pub open spec fn rows_fit(&self, batch: Seq<u64>) -> bool {
        &&& self.settings.decode_tokens_per_seq * batch.len() <= u64::MAX
        &&& forall|r: int| 0 <= r < batch.len() ==> #[trigger] self.row_fits(batch[r])
    }

    /// Every row has a sequence with a token to be fed.
    pub open spec fn all_generated(&self, batch: Seq<u64>) -> bool {
        forall|r: int| #![trigger batch[r]]
            0 <= r < batch.len() ==> self.has(batch[r]) && self.sequence(batch[r]).generated() >= 1
    }

    /// A step can begin with what the model reported: one length per row, a token for every row,
    /// and positions and widths that fit 32 bits to its end.
    pub open spec fn can_begin(
        &self,
        batch: Seq<u64>,
        kv_lens: Seq<usize>,
        original_max_kv: usize,
    ) -> bool {
        &&& kv_lens.len() == batch.len()
        &&& self.all_generated(batch)
        &&& self.rows_fit(batch)
        &&& original_max_kv + self.settings.decode_tokens_per_seq <= u32::MAX
    }

    fn have_all_generated(&self, batch: &Vec<u64>) -> (result: bool)
        requires
            self.wf(),
        ensures
            result == self.all_generated(batch@),
    {
        let mut r: usize = 0;
        while r < batch.len()
            invariant
                r <= batch@.len(),
                self.wf(),
                forall|j: int| #![trigger batch@[j]]
                    0 <= j < r ==> self.has(batch@[j]) && self.sequence(batch@[j]).generated() >= 1,
            decreases batch@.len() - r,
        {
            let fed = match self.find(batch[r]) {
                Some(i) => {
                    assert(self.sequences@[i as int].wf());
                    self.sequences[i].num_generated() >= 1
                },
                None => false,
            };
            if !fed {
                assert(!self.all_generated(batch@)) by {
                    assert(batch@[r as int] == batch[r as int]);
                }
                return false;
            }
            r = r + 1;
        }
        true
    }

    /// Begins a batched decode step, if it can begin with the lengths that the model reported.
    pub fn start_decode(
        &self,
        batch: &Vec<u64>,
        kv_lens: &Vec<usize>,
        original_max_kv: usize,
    ) -> (result: Option<BatchDecode>)
        requires
            self.wf(),
            batch@.no_duplicates(),
        ensures
            match result {
                Some(step) => self.can_begin(batch@, kv_lens@, original_max_kv) && step_begun(
                    *self,
                    step,
                    batch@,
                    kv_lens@,
                    original_max_kv,
                ),
                None => !self.can_begin(batch@, kv_lens@, original_max_kv),
            },
    {
        let widest: u128 = (original_max_kv as u128) + (
        self.settings.decode_tokens_per_seq as u128);
        if kv_lens.len() != batch.len() || widest > u32::MAX as u128 {
            return None;
        }
        if !self.have_all_generated(batch) || !self.decode_fits(batch) {
            return None;
        }
        Some(self.begin_decode(batch.clone(), kv_lens.clone(), original_max_kv))
    }

    /// Begins a batched decode step, with the lengths that the model reported. Every row is
    /// alive and fed its last token.
    pub fn begin_decode(
        &self,
        batch: Vec<u64>,
        kv_lens: Vec<usize>,
        original_max_kv: usize,
    ) -> (result: BatchDecode)
        requires
            self.wf(),
            batch@.no_duplicates(),
            kv_lens@.len() == batch@.len(),
            self.rows_fit(batch@),
            self.all_generated(batch@),
        ensures
            step_begun(*self, result, batch@, kv_lens@, original_max_kv),
    {
        let mut alive: Vec<bool> = Vec::new();
        let mut positions: Vec<usize> = Vec::new();
        let mut position_ids: Vec<u32> = Vec::new();
        let mut last_tokens: Vec<u32> = Vec::new();
        let mut r: usize = 0;
        while r < batch.len()
            invariant
                r <= batch@.len(),
                self.wf(),
                self.rows_fit(batch@),
                forall|j: int| #![trigger batch@[j]]
                    0 <= j < batch@.len() ==> self.has(batch@[j]) && self.sequence(
                        batch@[j],
                    ).generated() >= 1,
                alive@.len() == r,
                forall|j: int| 0 <= j < r ==> #[trigger] alive@[j],
                positions@ =~= Seq::new(
                    r as nat,
                    |j: int| (self.sequence(batch@[j]).tokens@.len() - 1) as usize,
                ),
                position_ids@.len() == r,
                forall|j: int| 0 <= j < r ==> #[trigger] position_ids@[j] == positions@[j],
                forall|j: int|
                    0 <= j < r ==> #[trigger] positions@[j] + 1 == self.sequence(
                        batch@[j],
                    ).tokens@.len() && positions@[j] + self.settings.decode_tokens_per_seq
                        < u32::MAX,
                last_tokens@ =~= Seq::new(
                    r as nat,
                    |j: int| self.sequence(batch@[j]).tokens@.last(),
                ),
            decreases batch@.len() - r,
        {
            assert(self.has(batch@[r as int]));
            assert(self.row_fits(batch@[r as int]));
            match self.find(batch[r]) {
                Some(i) => {
                    let seq = &self.sequences[i];
                    assert(self.sequences@[i as int].wf());
                    let position: usize = seq.start_pos();
                    alive.push(true);
                    positions.push(position);
                    position_ids.push(position as u32);
                    last_tokens.push(seq.tokens[seq.tokens.len() - 1]);
                },
                None => {
                    assert(false);
                },
            }
            r = r + 1;
        }
        let result = BatchDecode {
            batch,
            kv_lens,
            original_max_kv,
            alive,
            positions,
            position_ids,
            last_tokens,
            pending_finish: Vec::new(),
            pending_cancel: Vec::new(),
            rounds_done: 0,
            total_tokens: 0,
        };
        assert forall|j: int| 0 <= j < result.batch@.len() && result.alive@[j] implies #[trigger]
            row_ready(*self, result, j) by {
            assert(result.positions@[j] + 1 == self.sequence(batch@[j]).tokens@.len());
        }
        result
    }
}

proof fn lemma_token_for(step: BatchDecode, outcomes: Seq<RowOutcome>, id: u64, count: int)
    requires
        0 <= count <= step.batch@.len(),
    ensures
        (forall|j: int| 0 <= j < count ==> #[trigger] step.batch@[j] != id) ==> step.token_for(
            outcomes,
            id,
            count,
        ) is None,
    decreases count,
{
    if count > 0 {
        lemma_token_for(step, outcomes, id, count - 1);
    }
}

pub(crate) proof fn lemma_taken_bounded(step: BatchDecode, outcomes: Seq<RowOutcome>, count: int)
    requires
        0 <= count,
    ensures
        0 <= step.taken(outcomes, count) <= count,
    decreases count,
{
    if count > 0 {
        lemma_taken_bounded(step, outcomes, count - 1);
    }
}

/// One more row takes its token.
proof fn lemma_one_more_token(
    before: InferenceEngine,
    middle: InferenceEngine,
    after: InferenceEngine,
    step: BatchDecode,
    outcomes: Seq<RowOutcome>,
    r: int,
)
    requires
        before.wf(),
        step.batch@.no_duplicates(),
        0 <= r < step.batch@.len(),
        step.took(outcomes, r),
        tokens_taken(before.sequences@, middle.sequences@, step, outcomes, r),
        before.has(step.batch@[r]),
        ({
            let at = state::index_of(before.sequences@, step.batch@[r]);
            &&& after.sequences@[at].tokens@ == middle.sequences@[at].tokens@.push(
                outcomes[r]->token,
            )
            &&& after.sequences@[at] == (Sequence {
                tokens: after.sequences@[at].tokens,
                ..middle.sequences@[at]
            })
            &&& after.sequences@ == middle.sequences@.update(at, after.sequences@[at])
        }),
    ensures
        tokens_taken(before.sequences@, after.sequences@, step, outcomes, r + 1),
{
    let id = step.batch@[r];
    let at = state::index_of(before.sequences@, id);
    assert(before.sequences@[at].id == id);
    lemma_token_for(step, outcomes, id, r);
    assert forall|i: int| #![trigger after.sequences@[i]]
        0 <= i < before.sequences@.len() implies match step.token_for(
        outcomes,
        before.sequences@[i].id,
        r + 1,
    ) {
        Some(token) => {
            &&& after.sequences@[i].tokens@ == before.sequences@[i].tokens@.push(token)
            &&& after.sequences@[i] == (Sequence {
                tokens: after.sequences@[i].tokens,
                ..before.sequences@[i]
            })
        },
        None => after.sequences@[i] == before.sequences@[i],
    } by {
        assert(middle.sequences@[i] == middle.sequences@[i]);
        if i != at {
            assert(before.sequences@[i].id != id) by {
                state::lemma_index(before.sequences@, i);
            }
        }
    }
}

/// A row that takes nothing changes nothing.
proof fn lemma_no_token(
    before: Seq<Sequence>,
    after: Seq<Sequence>,
    step: BatchDecode,
    outcomes: Seq<RowOutcome>,
    r: int,
)
    requires
        0 <= r < step.batch@.len(),
        !step.took(outcomes, r),
        tokens_taken(before, after, step, outcomes, r),
    ensures
        tokens_taken(before, after, step, outcomes, r + 1),
{
    assert forall|i: int| #![trigger after[i]] 0 <= i < before.len() implies step.token_for(
        outcomes,
        before[i].id,
        r + 1,
    ) == step.token_for(outcomes, before[i].id, r) by {}
}

impl InferenceEngine {
    /// Adds a token to a sequence. The result says whether the sequence is complete with it.
    fn push_token(&mut self, id: u64, token: u32) -> (result: bool)
        requires
            old(self).wf(),
            old(self).has(id),
        ensures
            final(self).wf(),
            turns::token_added(*old(self), *final(self), id, token, old(self).sequence(id).status),
            result == ends_with(old(self).sequence(id), token),
    {
        let ghost before = *self;
        let ghost at = state::index_of(before.sequences@, id);
        match self.find(id) {
            Some(i) => {
                assert(before.sequences@[i as int].wf());
                let seq: &mut Sequence = &mut self.sequences[i];
                seq.tokens.push(token);
                proof {
                    assert(self.sequences@ =~= before.sequences@.update(at, self.sequences@[at]));
                    turns::lemma_fed_keeps_wf(before, *self, id, token, before.sequence(id).status);
                }
                assert(self.sequences@[at].tokens@.last() == token);
                self.sequences[i].should_stop()
            },
            None => {
                assert(false);
                false
            },
        }
    }

    /// Ends a round: every row that took a token gets it, and goes on unless it is complete or
    /// its client is gone. Rows that failed go no further.
    pub fn advance_round(&mut self, step: &mut BatchDecode, outcomes: &Vec<RowOutcome>)
        requires
            round_ready(*old(self), *old(step), outcomes@),
        ensures
            round_ran(*old(self), *final(self), *old(step), *final(step), outcomes@),
    {
        let ghost before = *self;
        let ghost first = *step;
        let ghost n = outcomes@.len() as int;
        let mut taken: u64 = 0;
        let mut r: usize = 0;
        proof {
            lemma_taken_bounded(first, outcomes@, n);
        }
        while r < outcomes.len()
            invariant
                r <= n,
                n == outcomes@.len(),
                n == first.batch@.len(),
                first.wf(before.settings.decode_tokens_per_seq as int),
                first.rounds_done < before.settings.decode_tokens_per_seq,
                before.wf(),
                self.wf(),
                *self == (InferenceEngine { sequences: self.sequences, ..before }),
                forall|j: int|
                    0 <= j < n && first.took(outcomes@, j) ==> #[trigger] row_ready(
                        before,
                        first,
                        j,
                    ),
                tokens_taken(before.sequences@, self.sequences@, first, outcomes@, r as int),
                taken == first.taken(outcomes@, r as int),
                taken <= r,
                step.batch == first.batch,
                step.kv_lens == first.kv_lens,
                step.original_max_kv == first.original_max_kv,
                step.rounds_done == first.rounds_done,
                step.total_tokens == first.total_tokens,
                step.alive@.len() == n,
                step.last_tokens@.len() == n,
                step.positions@.len() == n,
                step.position_ids@.len() == n,
                forall|j: int|
                    0 <= j < r ==> #[trigger] step.alive@[j] == (first.took(outcomes@, j)
                        && !first.finishes(before, outcomes@, j) && !first.leaves(
                        before,
                        outcomes@,
                        j,
                    )),
                forall|j: int| r <= j < n ==> #[trigger] step.alive@[j] == first.alive@[j],
                forall|j: int|
                    0 <= j < r ==> #[trigger] step.last_tokens@[j] == if first.took(outcomes@, j) {
                        outcomes@[j]->token
                    } else {
                        first.last_tokens@[j]
                    },
                forall|j: int|
                    r <= j < n ==> #[trigger] step.last_tokens@[j] == first.last_tokens@[j],
                forall|j: int|
                    0 <= j < r ==> #[trigger] step.positions@[j] == first.positions@[j] + 1,
                forall|j: int|
                    0 <= j < r ==> #[trigger] step.position_ids@[j] == first.position_ids@[j] + 1,
                forall|j: int|
                    r <= j < n ==> #[trigger] step.positions@[j] == first.positions@[j],
                forall|j: int|
                    r <= j < n ==> #[trigger] step.position_ids@[j] == first.position_ids@[j],
                step.pending_finish@ == first.pending_finish@ + first.finishing(
                    before,
                    outcomes@,
                    r as int,
                ),
                step.pending_cancel@ == first.pending_cancel@ + first.leaving(
                    before,
                    outcomes@,
                    r as int,
                ),
            decreases n - r,
        {
            assert(first.positions@[r as int] + 1 < u32::MAX);
            let id: u64 = step.batch[r];
            if step.alive[r] {
                match outcomes[r] {
                    RowOutcome::Token { token, closed } => {
                        assert(first.took(outcomes@, r as int));
                        assert(row_ready(before, first, r as int));
                        let ghost middle = *self;
                        let ghost at = state::index_of(before.sequences@, id);
                        proof {
                            lemma_token_for(first, outcomes@, id, r as int);
                            assert(before.sequences@[at].id == id);
                            assert(middle.sequences@[at] == before.sequences@[at]);
                            state::lemma_index(middle.sequences@, at);
                        }
                        let complete = self.push_token(id, token);
                        proof {
                            lemma_one_more_token(
                                before,
                                middle,
                                *self,
                                first,
                                outcomes@,
                                r as int,
                            );
                        }
                        step.last_tokens.set(r, token);
                        taken = taken + 1;
                        if complete {
                            step.alive.set(r, false);
                            step.pending_finish.push(id);
                        } else if closed {
                            step.alive.set(r, false);
                            step.pending_cancel.push(id);
                        }
                    },
                    RowOutcome::Failed => {
                        step.alive.set(r, false);
                        proof {
                            lemma_no_token(
                                before.sequences@,
                                self.sequences@,
                                first,
                                outcomes@,
                                r as int,
                            );
                        }
                    },
                }
            } else {
                proof {
                    lemma_no_token(
                        before.sequences@,
                        self.sequences@,
                        first,
                        outcomes@,
                        r as int,
                    );
                }
            }
            step.positions.set(r, step.positions[r] + 1);
            step.position_ids.set(r, step.position_ids[r] + 1);
            r = r + 1;
        }
        assert(first.total_tokens + taken <= (first.rounds_done + 1) * n && (first.rounds_done + 1)
            * n <= before.settings.decode_tokens_per_seq * n) by (nonlinear_arith)
            requires
                first.total_tokens <= first.rounds_done * n,
                taken <= n,
                0 <= n,
                first.rounds_done + 1 <= before.settings.decode_tokens_per_seq,
        ;
        self.stats.total_decode_steps.fetch_add(taken);
        step.total_tokens = step.total_tokens + taken;
        step.rounds_done = step.rounds_done + 1;
        proof {
            lemma_round_tracks(before, *self, first, *step, outcomes@);
            assert(step.alive@ =~= Seq::new(
                n as nat,
                |j: int|
                    first.took(outcomes@, j) && !first.finishes(before, outcomes@, j)
                        && !first.leaves(before, outcomes@, j),
            ));
            assert(step.last_tokens@ =~= Seq::new(
                n as nat,
                |j: int|
                    if first.took(outcomes@, j) {
                        outcomes@[j]->token
                    } else {
                        first.last_tokens@[j]
                    },
            ));
            assert(step.positions@ =~= Seq::new(
                n as nat,
                |j: int| (first.positions@[j] + 1) as usize,
            ));
            assert(step.position_ids@ =~= Seq::new(
                n as nat,
                |j: int| (first.position_ids@[j] + 1) as u32,
            ));
        }
    }
}

proof fn lemma_round_tracks(
    before: InferenceEngine,
    after: InferenceEngine,
    first: BatchDecode,
    last: BatchDecode,
    outcomes: Seq<RowOutcome>,
)
    requires
        before.wf(),
        first.batch@.no_duplicates(),
        outcomes.len() == first.batch@.len(),
        first.alive@.len() == first.batch@.len(),
        forall|r: int|
            0 <= r < outcomes.len() && first.took(outcomes, r) ==> #[trigger] row_ready(
                before,
                first,
                r,
            ),
        tokens_taken(
            before.sequences@,
            after.sequences@,
            first,
            outcomes,
            outcomes.len() as int,
        ),
        last.batch == first.batch,
        forall|r: int| #![trigger last.alive@[r]]
            0 <= r < outcomes.len() && last.alive@[r] ==> first.took(outcomes, r)
                && last.last_tokens@[r] == outcomes[r]->token && last.positions@[r]
                == first.positions@[r] + 1,
    ensures
        last.tracks(after),
{
    assert forall|i: int| #![trigger after.sequences@[i]]
        0 <= i < before.sequences@.len() implies after.sequences@[i].id
        == before.sequences@[i].id by {
        match first.token_for(outcomes, before.sequences@[i].id, outcomes.len() as int) {
            Some(token) => {},
            None => {},
        }
    }
    state::lemma_same_ids_same_places(before.sequences@, after.sequences@);
    assert forall|r: int| 0 <= r < last.batch@.len() && last.alive@[r] implies #[trigger] row_ready(
        after,
        last,
        r,
    ) by {
        assert(first.took(outcomes, r));
        assert(row_ready(before, first, r));
        let id = first.batch@[r];
        let at = state::index_of(before.sequences@, id);
        assert(before.sequences@[at].id == id);
        assert(state::has_id(after.sequences@, id));
        assert(state::index_of(after.sequences@, id) == at);
        lemma_token_is(first, outcomes, r, outcomes.len() as int);
        assert(after.sequences@[at].tokens@ == before.sequences@[at].tokens@.push(
            outcomes[r]->token,
        ));
    }
}

proof fn lemma_token_is(step: BatchDecode, outcomes: Seq<RowOutcome>, r: int, count: int)
    requires
        0 <= r < count <= step.batch@.len(),
        step.batch@.no_duplicates(),
        step.took(outcomes, r),
    ensures
        step.token_for(outcomes, step.batch@[r], count) == Some(outcomes[r]->token),
    decreases count,
{
    if count - 1 > r {
        assert(step.batch@[count - 1] != step.batch@[r]);
        lemma_token_is(step, outcomes, r, count - 1);
    }
}

/// A row that takes a token in a round has it as its last one, and no other row's tokens change.
pub proof fn law_round_adds_one_token(
    before: Seq<Sequence>,
    after: Seq<Sequence>,
    step: BatchDecode,
    outcomes: Seq<RowOutcome>,
    r: int,
    i: int,
)
    requires
        tokens_taken(before, after, step, outcomes, outcomes.len() as int),
        outcomes.len() == step.batch@.len(),
        step.batch@.no_duplicates(),
        0 <= r < outcomes.len(),
        0 <= i < before.len(),
        before[i].id == step.batch@[r],
    ensures
        step.took(outcomes, r) ==> after[i].tokens@ == before[i].tokens@.push(outcomes[r]->token),
        !step.took(outcomes, r) ==> after[i] == before[i],
{
    assert(after[i] == after[i]);
    if step.took(outcomes, r) {
        lemma_token_is(step, outcomes, r, outcomes.len() as int);
    } else {
        lemma_no_token_is(step, outcomes, r, outcomes.len() as int);
    }
}

proof fn lemma_no_token_is(step: BatchDecode, outcomes: Seq<RowOutcome>, r: int, count: int)
    requires
        0 <= r < step.batch@.len(),
        count <= step.batch@.len(),
        step.batch@.no_duplicates(),
        !step.took(outcomes, r),
    ensures
        step.token_for(outcomes, step.batch@[r], count) is None,
    decreases count,
{
    if count > 0 {
        lemma_no_token_is(step, outcomes, r, count - 1);
        if count - 1 != r {
            assert(step.batch@[count - 1] != step.batch@[r]);
        }
    }
}

/// What a round does to row `r`. A row that was alive and got a token has it at the end of its
/// sequence, is fed it next, and moves on by one position. One that failed, or was not alive, has
/// the tokens that it had and is not alive. No row comes back to life, and none changes its
/// sequence.
pub proof fn law_round_moves_each_row(
    before: InferenceEngine,
    after: InferenceEngine,
    first: BatchDecode,
    last: BatchDecode,
    outcomes: Seq<RowOutcome>,
    r: int,
)
    requires
        round_ready(before, first, outcomes),
        round_ran(before, after, first, last, outcomes),
        0 <= r < first.batch@.len(),
        before.has(first.batch@[r]),
    ensures
        last.batch@[r] == first.batch@[r],
        last.kv_lens@[r] == first.kv_lens@[r],
        last.positions@[r] == first.positions@[r] + 1,
        last.position_ids@[r] == first.position_ids@[r] + 1,
        after.has(first.batch@[r]),
        match outcomes[r] {
            RowOutcome::Token { token, closed } => if first.alive@[r] {
                &&& after.sequence(first.batch@[r]).tokens@ == before.sequence(
                    first.batch@[r],
                ).tokens@.push(token)
                &&& last.last_tokens@[r] == token
                &&& closed ==> !last.alive@[r]
            } else {
                &&& after.sequence(first.batch@[r]).tokens@ == before.sequence(
                    first.batch@[r],
                ).tokens@
                &&& !last.alive@[r]
            },
            RowOutcome::Failed => {
                &&& after.sequence(first.batch@[r]).tokens@ == before.sequence(
                    first.batch@[r],
                ).tokens@
                &&& !last.alive@[r]
            },
        },
{
    let id = first.batch@[r];
    let list = before.sequences@;
    let all = after.sequences@;
    assert forall|i: int| #![trigger all[i]] 0 <= i < list.len() implies all[i].id
        == list[i].id by {
        assert(all[i] == all[i]);
    }
    state::lemma_same_ids_same_places(list, all);
    assert(state::has_id(list, id));
    assert(state::has_id(all, id));
    let i = state::index_of(list, id);
    assert(list[i].id == id);
    law_round_adds_one_token(list, all, first, outcomes, r, i);
    assert(last.positions@[r] == (first.positions@[r] + 1) as usize);
    assert(first.position_ids@[r] == first.positions@[r]);
}

/// The rounds of a step fill the batch buffers without a gap: the first one writes right behind the
/// longest past, each later one right behind the one before it, and each attends to everything up
/// to its own place and nothing beyond.
pub proof fn law_rounds_fill_the_buffers(
    engine: InferenceEngine,
    batch: Seq<u64>,
    kv_lens: Seq<usize>,
    original_max_kv: usize,
    first: BatchDecode,
    before: BatchDecode,
    after: BatchDecode,
    outcomes: Seq<RowOutcome>,
)
    requires
        step_begun(engine, first, batch, kv_lens, original_max_kv),
        round_done(engine, before, after, outcomes),
    ensures
        first.append_place() == original_max_kv,
        after.append_place() == before.append_place() + 1,
        first.attended() == first.append_place() + 1,
        after.attended() == after.append_place() + 1,
        before.attended() == after.append_place(),
{
}

/// A step begins where its sequences stand: each row is fed the last token of its own sequence, at
/// the place of that token, and nothing is done yet.
pub proof fn law_step_begins_at_the_last_tokens(
    engine: InferenceEngine,
    step: BatchDecode,
    batch: Seq<u64>,
    kv_lens: Seq<usize>,
    original_max_kv: usize,
    r: int,
)
    requires
        step_begun(engine, step, batch, kv_lens, original_max_kv),
        0 <= r < batch.len(),
    ensures
        step.batch@[r] == batch[r],
        engine.sequence(batch[r]).tokens@[step.positions@[r] as int] == step.last_tokens@[r],
        step.positions@[r] + 1 == engine.sequence(batch[r]).tokens@.len(),
        step.position_ids@[r] == step.positions@[r],
        step.kv_lens@[r] == kv_lens[r],
        step.alive@[r],
        !step.pending_finish@.contains(batch[r]),
        !step.pending_cancel@.contains(batch[r]),
{
    assert(step.alive@[r]);
    assert(row_ready(engine, step, r));
}

/// A step begins only if every row has a sequence that has generated something and the model
/// reported one length per row, and no position or width will outgrow 32 bits before it ends.
pub proof fn law_step_begins_in_range(
    engine: InferenceEngine,
    batch: Seq<u64>,
    kv_lens: Seq<usize>,
    original_max_kv: usize,
    r: int,
)
    requires
        engine.can_begin(batch, kv_lens, original_max_kv),
        0 <= r < batch.len(),
    ensures
        kv_lens.len() == batch.len(),
        engine.has(batch[r]),
        engine.sequence(batch[r]).tokens@.len() > engine.sequence(batch[r]).prompt_len,
        engine.sequence(batch[r]).tokens@.len() - 1 + engine.settings.decode_tokens_per_seq
            < u32::MAX,
        original_max_kv + engine.settings.decode_tokens_per_seq <= u32::MAX,
{
    assert(batch[r] == batch[r]);
    assert(engine.row_fits(batch[r]));
}

} // verus!
