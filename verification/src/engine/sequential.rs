//! Decoding one sequence after the other: what to do next, by what came of it so far.
use super::state::InferenceEngine;
use super::turns::{self, StepInput};
use crate::stats::EngineStats;
use vstd::prelude::*;

verus! {

/// Where a turn of one sequence failed.
#[derive(Debug, Clone, Copy, PartialEq, Eq, Structural)]
pub enum TurnStage {
    SwapIn,
    Forward,
    Sampling,
}

/// What a sequential step waits for.
#[derive(Debug, Clone, Copy, PartialEq, Eq, Structural)]
pub enum SequentialPhase {
    /// The first row is due.
    Start,
    /// Whether the client of the row still listens.
    Client,
    SwapIn,
    Forward,
    Sample,
    /// The token is sent; `complete`: it was the last one.
    Send { complete: bool },
    /// The sequence is ended; `loaded`: its caches were loaded into the model.
    End { loaded: bool },
    SwapOut,
    Over,
}

/// A sequential step on its way.
#[derive(Debug)]
pub struct SequentialRun {
    pub batch: Vec<u64>,
    /// The row that is decoded.
    pub row: usize,
    /// Tokens that the row took.
    pub round: usize,
    /// Tokens that all rows took.
    pub tokens: u64,
    pub phase: SequentialPhase,
}

/// What came of the last action.
#[derive(Debug, Clone, Copy, PartialEq, Eq, Structural)]
pub enum SequentialEvent {
    Begin,
    /// Whether the client is gone.
    Client { closed: bool },
    SwappedIn { ok: bool },
    Forwarded { ok: bool },
    /// The sampled token, if that went well, of a sequence that is greedy or not.
    Sampled { token: Option<u32>, greedy: bool },
    /// The sequence was finished, cancelled or failed.
    Ended,
    SwappedOut,
}

/// What to do next.
#[derive(Debug)]
pub enum SequentialAction {
    /// Find out whether the client of the sequence is gone.
    AskClient { id: u64 },
    SwapIn { id: u64 },
    Forward { id: u64, input: StepInput },
    Sample { id: u64 },
    /// Send the token, and find out whether the client is gone.
    Send { id: u64, token: u32 },
    Finish { id: u64 },
    Cancel { id: u64 },
    Fail { id: u64, stage: TurnStage },
    SwapOut { id: u64 },
    Done,
}

impl SequentialRun {
    /// The row is one of the batch while it is decoded, and has rounds left while it takes
    /// tokens.
    pub open spec fn wf(&self, rounds: int) -> bool {
        &&& self.row <= self.batch@.len()
        &&& !(self.phase is Start) && !(self.phase is Over) ==> self.row < self.batch@.len()
        &&& self.phase is Forward || self.phase is Sample || self.phase is Send ==> self.round
            < rounds
    }

    /// This event can come now.
    pub open spec fn awaits(&self, event: SequentialEvent) -> bool {
        match self.phase {
            SequentialPhase::Start => event is Begin,
            SequentialPhase::Client => event is Client,
            SequentialPhase::SwapIn => event is SwappedIn,
            SequentialPhase::Forward => event is Forwarded,
            SequentialPhase::Sample => event is Sampled,
            SequentialPhase::Send { .. } => event is Client,
            SequentialPhase::End { .. } => event is Ended,
            SequentialPhase::SwapOut => event is SwappedOut,
            SequentialPhase::Over => false,
        }
    }

    /// The sequence that is decoded.
    pub open spec fn id(&self) -> u64 {
        self.batch@[self.row as int]
    }

    /// The run waits for this, and is otherwise as before.
    pub open spec fn at(self, phase: SequentialPhase) -> SequentialRun {
        SequentialRun { phase, ..self }
    }

    /// A step over this batch.
    pub fn new(batch: Vec<u64>) -> (result: Self)
        ensures
            result.batch == batch,
            result.row == 0,
            result.round == 0,
            result.tokens == 0,
            result.phase == SequentialPhase::Start,
            forall|rounds: int| #[trigger] result.wf(rounds),
    {
        SequentialRun { batch, row: 0, round: 0, tokens: 0, phase: SequentialPhase::Start }
    }
}

/// The run goes on with row `row`, or is over.
pub open spec fn row_starts(
    before: SequentialRun,
    row: int,
    after: SequentialRun,
    action: SequentialAction,
) -> bool {
    let there = row < before.batch@.len();
    &&& after == (SequentialRun { row: row as usize, ..before }).at(
        if there {
            SequentialPhase::Client
        } else {
            SequentialPhase::Over
        },
    )
    &&& action == if there {
        SequentialAction::AskClient { id: before.batch@[row] }
    } else {
        SequentialAction::Done
    }
}

/// The row goes on with round `round`, or its turn ends.
pub open spec fn round_starts(
    engine: InferenceEngine,
    before: SequentialRun,
    round: int,
    after: SequentialRun,
    action: SequentialAction,
) -> bool {
    let due = round < engine.settings.decode_tokens_per_seq && engine.has(before.id());
    let begun = SequentialRun { round: round as usize, ..before };
    if due {
        &&& after == begun.at(SequentialPhase::Forward)
        &&& action is Forward
        &&& action->Forward_id == before.id()
        &&& turns::feeds(engine.sequence(before.id()), action->input)
    } else {
        &&& after == begun.at(SequentialPhase::SwapOut)
        &&& action == (SequentialAction::SwapOut { id: before.id() })
    }
}

/// The run and the action that follow an event, where the sequences stay as they are.
pub open spec fn run_goes_on(
    engine: InferenceEngine,
    before: SequentialRun,
    event: SequentialEvent,
    after: SequentialRun,
    action: SequentialAction,
) -> bool {
    let id = before.id();
    match event {
        SequentialEvent::Begin => row_starts(before, before.row as int, after, action),
        SequentialEvent::Client { closed } => match before.phase {
            SequentialPhase::Send { complete } => if complete {
                &&& after == before.at(SequentialPhase::End { loaded: true })
                &&& action == (SequentialAction::Finish { id })
            } else if closed {
                &&& after == before.at(SequentialPhase::End { loaded: true })
                &&& action == (SequentialAction::Cancel { id })
            } else {
                round_starts(engine, before, before.round + 1, after, action)
            },
            _ => if closed || !engine.has(id) {
                &&& after == before.at(SequentialPhase::End { loaded: false })
                &&& action == (SequentialAction::Cancel { id })
            } else {
                &&& after == before.at(SequentialPhase::SwapIn)
                &&& action == (SequentialAction::SwapIn { id })
            },
        },
        SequentialEvent::SwappedIn { ok } => if ok {
            round_starts(engine, before, 0, after, action)
        } else {
            &&& after == before.at(SequentialPhase::End { loaded: false })
            &&& action == (SequentialAction::Fail { id, stage: TurnStage::SwapIn })
        },
        SequentialEvent::Forwarded { ok } => if ok {
            &&& after == before.at(SequentialPhase::Sample)
            &&& action == (SequentialAction::Sample { id })
        } else {
            &&& after == before.at(SequentialPhase::End { loaded: true })
            &&& action == (SequentialAction::Fail { id, stage: TurnStage::Forward })
        },
        SequentialEvent::Sampled { token, .. } => {
            &&& token is None
            &&& after == before.at(SequentialPhase::End { loaded: true })
            &&& action == (SequentialAction::Fail { id, stage: TurnStage::Sampling })
        },
        SequentialEvent::Ended => match before.phase {
            SequentialPhase::End { loaded } => if loaded {
                &&& after == before.at(SequentialPhase::SwapOut)
                &&& action == (SequentialAction::SwapOut { id })
            } else {
                row_starts(before, before.row + 1, after, action)
            },
            _ => false,
        },
        SequentialEvent::SwappedOut => row_starts(before, before.row + 1, after, action),
    }
}

/// The run and the action that follow a sampled token.
pub open spec fn token_taken(
    engine: InferenceEngine,
    before: SequentialRun,
    token: u32,
    after: SequentialRun,
    action: SequentialAction,
) -> bool {
    let complete = turns::is_complete(engine.sequence(before.id()));
    &&& after == (SequentialRun { tokens: (before.tokens + 1) as u64, ..before }).at(
        SequentialPhase::Send { complete },
    )
    &&& action == (SequentialAction::Send { id: before.id(), token })
}

impl InferenceEngine {
    fn start_row(&self, run: &mut SequentialRun, row: usize) -> (result: SequentialAction)
        requires
            row <= old(run).batch@.len(),
        ensures
            row_starts(*old(run), row as int, *final(run), result),
    {
        run.row = row;
        if row < run.batch.len() {
            run.phase = SequentialPhase::Client;
            SequentialAction::AskClient { id: run.batch[row] }
        } else {
            run.phase = SequentialPhase::Over;
            SequentialAction::Done
        }
    }

    fn start_round(&self, run: &mut SequentialRun, round: usize) -> (result: SequentialAction)
        requires
            self.wf(),
            old(run).row < old(run).batch@.len(),
        ensures
            round_starts(*self, *old(run), round as int, *final(run), result),
    {
        let id: u64 = run.batch[run.row];
        run.round = round;
        if round < self.settings.decode_tokens_per_seq {
            if let Some(input) = self.step_input(id) {
                run.phase = SequentialPhase::Forward;
                return SequentialAction::Forward { id, input };
            }
        }
        run.phase = SequentialPhase::SwapOut;
        SequentialAction::SwapOut { id }
    }

    /// Takes note of what came of the last action of a sequential step, and decides what to do
    /// next.
    pub fn advance_sequential(&mut self, run: &mut SequentialRun, event: SequentialEvent) -> (result:
        SequentialAction)
        requires
            old(self).wf(),
            old(run).wf(old(self).settings.decode_tokens_per_seq as int),
            old(run).awaits(event),
            event matches SequentialEvent::Sampled { token: Some(_), .. } ==> {
                &&& old(self).has(old(run).id())
                &&& old(self).paged_kv_allocator.spare(
                    old(self).sequence(old(run).id()).tokens@.len() as int,
                )
                &&& old(run).tokens < u64::MAX
            },
        ensures
            final(self).wf(),
            final(self).settings == old(self).settings,
            final(run).wf(old(self).settings.decode_tokens_per_seq as int),
            match event {
                SequentialEvent::Sampled { token: Some(token), greedy } => {
                    &&& turns::decoded(
                        InferenceEngine {
                            stats: turns::row_counted(old(self).stats, greedy),
                            ..*old(self)
                        },
                        *final(self),
                        old(run).id(),
                        token,
                    )
                    &&& final(self).has(old(run).id())
                    &&& token_taken(*final(self), *old(run), token, *final(run), result)
                },
                SequentialEvent::Sampled { token: None, .. } => {
                    &&& *final(self) == (InferenceEngine {
                        stats: turns::failure_counted(old(self).stats),
                        ..*old(self)
                    })
                    &&& run_goes_on(*old(self), *old(run), event, *final(run), result)
                },
                _ => {
                    &&& *final(self) == *old(self)
                    &&& run_goes_on(*old(self), *old(run), event, *final(run), result)
                },
            },
    {
        let row: usize = run.row;
        let rows: usize = run.batch.len();
        assert(row <= rows);
        match event {
            SequentialEvent::Begin => self.start_row(run, row),
            SequentialEvent::Client { closed } => {
                let id: u64 = run.batch[row];
                match run.phase {
                    SequentialPhase::Send { complete } => {
                        if complete {
                            run.phase = SequentialPhase::End { loaded: true };
                            SequentialAction::Finish { id }
                        } else if closed {
                            run.phase = SequentialPhase::End { loaded: true };
                            SequentialAction::Cancel { id }
                        } else {
                            let round: usize = run.round;
                            self.start_round(run, round + 1)
                        }
                    },
                    _ => {
                        if closed || self.find(id).is_none() {
                            run.phase = SequentialPhase::End { loaded: false };
                            SequentialAction::Cancel { id }
                        } else {
                            run.phase = SequentialPhase::SwapIn;
                            SequentialAction::SwapIn { id }
                        }
                    },
                }
            },
            SequentialEvent::SwappedIn { ok } => {
                if ok {
                    self.start_round(run, 0)
                } else {
                    run.phase = SequentialPhase::End { loaded: false };
                    SequentialAction::Fail { id: run.batch[row], stage: TurnStage::SwapIn }
                }
            },
            SequentialEvent::Forwarded { ok } => {
                let id: u64 = run.batch[row];
                if ok {
                    run.phase = SequentialPhase::Sample;
                    SequentialAction::Sample { id }
                } else {
                    run.phase = SequentialPhase::End { loaded: true };
                    SequentialAction::Fail { id, stage: TurnStage::Forward }
                }
            },
            SequentialEvent::Sampled { token, greedy } => {
                let id: u64 = run.batch[row];
                match token {
                    Some(token) => {
                        self.record_row_sampled(greedy);
                        let complete = self.complete_decode(id, token);
                        run.tokens = run.tokens + 1;
                        run.phase = SequentialPhase::Send { complete };
                        SequentialAction::Send { id, token }
                    },
                    None => {
                        self.record_sampling_failure();
                        run.phase = SequentialPhase::End { loaded: true };
                        SequentialAction::Fail { id, stage: TurnStage::Sampling }
                    },
                }
            },
            SequentialEvent::Ended => match run.phase {
                SequentialPhase::End { loaded } => {
                    if loaded {
                        run.phase = SequentialPhase::SwapOut;
                        SequentialAction::SwapOut { id: run.batch[row] }
                    } else {
                        self.start_row(run, row + 1)
                    }
                },
                _ => {
                    assert(false);
                    SequentialAction::Done
                },
            },
            SequentialEvent::SwappedOut => self.start_row(run, row + 1),
        }
    }
}

/// Actions that a run can still ask for within its row.
pub open spec fn row_left(run: SequentialRun, rounds: int) -> int {
    match run.phase {
        SequentialPhase::Client => 3 * rounds + 5,
        SequentialPhase::SwapIn => 3 * rounds + 4,
        SequentialPhase::Forward => 3 * (rounds - run.round) + 2,
        SequentialPhase::Sample => 3 * (rounds - run.round) + 1,
        SequentialPhase::Send { .. } => 3 * (rounds - run.round),
        SequentialPhase::End { loaded } => if loaded {
            2
        } else {
            1
        },
        _ => 1,
    }
}

/// Actions that a run can still ask for.
pub open spec fn run_left(run: SequentialRun, rounds: int) -> int {
    let rows = run.batch@.len() - run.row;
    match run.phase {
        SequentialPhase::Over => 0,
        SequentialPhase::Start => rows * (3 * rounds + 6) + 1,
        _ => (rows - 1) * (3 * rounds + 6) + row_left(run, rounds),
    }
}

/// A sequential step ends: every event brings it nearer to its end.
pub proof fn law_sequential_step_ends(
    engine: InferenceEngine,
    before: SequentialRun,
    event: SequentialEvent,
    after: SequentialRun,
    action: SequentialAction,
)
    requires
        engine.settings.decode_tokens_per_seq >= 1,
        before.wf(engine.settings.decode_tokens_per_seq as int),
        before.awaits(event),
        match event {
            SequentialEvent::Sampled { token: Some(token), .. } => token_taken(
                engine,
                before,
                token,
                after,
                action,
            ),
            _ => run_goes_on(engine, before, event, after, action),
        },
    ensures
        0 <= run_left(after, engine.settings.decode_tokens_per_seq as int) < run_left(
            before,
            engine.settings.decode_tokens_per_seq as int,
        ),
{
    let rounds = engine.settings.decode_tokens_per_seq as int;
    let each = 3 * rounds + 6;
    let rows = before.batch@.len() - before.row;
    assert(rows * each == (rows - 1) * each + each && (rows - 1) * each == (rows - 2) * each + each)
        by (nonlinear_arith);
    assert(rows >= 1 ==> (rows - 1) * each >= 0) by (nonlinear_arith)
        requires
            each >= 0,
    ;
    assert(rows >= 2 ==> (rows - 2) * each >= 0) by (nonlinear_arith)
        requires
            each >= 0,
    ;
    assert(rows == 0 ==> rows * each == 0) by (nonlinear_arith);
    assert(before.batch.len() == before.batch@.len());
}

/// What becomes of a sequence during its turn. It is finished only when it is complete, and then
/// whether or not its client is still there; cancelled only when its client is gone, or it is gone
/// itself; and failed only when something failed. Rows take their turns in order, and each action
/// is about the sequence of the row whose turn it is.
pub proof fn law_turns_end_for_a_reason(
    engine: InferenceEngine,
    before: SequentialRun,
    event: SequentialEvent,
    after: SequentialRun,
    action: SequentialAction,
)
    requires
        before.awaits(event),
        before.wf(engine.settings.decode_tokens_per_seq as int),
        run_goes_on(engine, before, event, after, action),
    ensures
        after.batch == before.batch,
        after.tokens == before.tokens,
        after.row == before.row || (after.row == before.row + 1 && (event is SwappedOut
            || event is Ended)),
        action matches SequentialAction::Finish { id } ==> id == before.batch@[before.row as int]
            && before.phase == (SequentialPhase::Send { complete: true }),
        before.phase == (SequentialPhase::Send { complete: true }) ==> action is Finish,
        action matches SequentialAction::Cancel { id } ==> id == before.batch@[before.row as int]
            && (event == (SequentialEvent::Client { closed: true }) || !engine.has(id)),
        event == (SequentialEvent::Client { closed: true }) ==> action is Cancel || before.phase
            == (SequentialPhase::Send { complete: true }),
        action matches SequentialAction::Fail { id, .. } ==> id == before.batch@[before.row as int]
            && (event == (SequentialEvent::SwappedIn { ok: false }) || event == (
        SequentialEvent::Forwarded { ok: false }) || event is Sampled),
        action matches SequentialAction::Forward { id, input } ==> id
            == before.batch@[before.row as int] && engine.has(id) && turns::feeds(
            engine.sequence(id),
            input,
        ) && after.round < engine.settings.decode_tokens_per_seq,
        action is Done ==> after.row == after.batch@.len(),
{
    assert(before.batch.len() == before.batch@.len());
}

/// A token that was sampled in a turn is sent to the client of that very sequence, and counted.
pub proof fn law_sampled_token_is_sent(
    engine: InferenceEngine,
    before: SequentialRun,
    token: u32,
    after: SequentialRun,
    action: SequentialAction,
)
    requires
        token_taken(engine, before, token, after, action),
        before.tokens < u64::MAX,
    ensures
        action == (SequentialAction::Send { id: before.batch@[before.row as int], token }),
        after.tokens == before.tokens + 1,
        after.row == before.row && after.round == before.round,
        after.phase matches SequentialPhase::Send { complete } && (complete <==> {
            let own = engine.sequence(before.batch@[before.row as int]);
            own.at_eos() || own.tokens@.len() >= own.prompt_len + own.max_tokens
        }),
{
}

} // verus!
