//! Running the prompt of a new sequence: what to do next, by what came of it so far.
use super::sequential::TurnStage;
use super::state::InferenceEngine;
use super::turns::{self, PrefillTimings, StepInput};
use vstd::prelude::*;

verus! {

/// What a prefill waits for.
#[derive(Debug, Clone, Copy, PartialEq, Eq, Structural)]
pub enum PrefillPhase {
    Start,
    SwapIn,
    Forward,
    Sample,
    /// Copying keys and values into pages.
    Import,
    SwapOut,
    /// The token is sent; `complete`: it was the last one.
    Send { complete: bool },
    Over,
}

/// A prefill on its way.
#[derive(Debug, Clone, Copy, PartialEq, Eq, Structural)]
pub struct PrefillRun {
    pub id: u64,
    /// Tokens that the model was fed.
    pub prompt_len: usize,
    /// The first token.
    pub token: u32,
    pub phase: PrefillPhase,
}

/// What came of the last action.
#[derive(Debug, Clone, Copy, PartialEq, Eq, Structural)]
pub enum PrefillEvent {
    Begin,
    SwappedIn { ok: bool },
    Forwarded { ok: bool },
    /// The sampled token, if that went well, of a sequence that is greedy or not.
    Sampled { token: Option<u32>, greedy: bool },
    Imported,
    /// The turn of the sequence ended; these times were taken.
    SwappedOut { timings: PrefillTimings },
    Sent,
}

/// What to do next.
#[derive(Debug)]
pub enum PrefillAction {
    SwapIn { id: u64 },
    Forward { id: u64, input: StepInput },
    Sample { id: u64 },
    Import { id: u64, prompt_len: usize },
    SwapOut { id: u64 },
    Send { id: u64, token: u32 },
    Finish { id: u64 },
    Fail { id: u64, stage: TurnStage },
    Done,
}

impl PrefillRun {
    /// This event can come now.
    pub open spec fn awaits(&self, event: PrefillEvent) -> bool {
        match self.phase {
            PrefillPhase::Start => event is Begin,
            PrefillPhase::SwapIn => event is SwappedIn,
            PrefillPhase::Forward => event is Forwarded,
            PrefillPhase::Sample => event is Sampled,
            PrefillPhase::Import => event is Imported,
            PrefillPhase::SwapOut => event is SwappedOut,
            PrefillPhase::Send { .. } => event is Sent,
            PrefillPhase::Over => false,
        }
    }

    /// The run waits for this, and is otherwise as before.
    pub open spec fn at(self, phase: PrefillPhase) -> PrefillRun {
        PrefillRun { phase, ..self }
    }

    /// A prefill of this sequence.
    pub fn new(id: u64) -> (result: Self)
        ensures
            result == (PrefillRun { id, prompt_len: 0, token: 0, phase: PrefillPhase::Start }),
    {
        PrefillRun { id, prompt_len: 0, token: 0, phase: PrefillPhase::Start }
    }
}

/// The run and the action that follow an event.
pub open spec fn prefill_goes_on(
    engine: InferenceEngine,
    before: PrefillRun,
    event: PrefillEvent,
    after: PrefillRun,
    action: PrefillAction,
) -> bool {
    let id = before.id;
    match event {
        PrefillEvent::Begin => {
            &&& after == before.at(PrefillPhase::SwapIn)
            &&& action == (PrefillAction::SwapIn { id })
        },
        PrefillEvent::SwappedIn { ok } => if !ok {
            &&& after == before.at(PrefillPhase::Over)
            &&& action == (PrefillAction::Fail { id, stage: TurnStage::SwapIn })
        } else if engine.has(id) {
            &&& action is Forward
            &&& action->Forward_id == id
            &&& turns::feeds(engine.sequence(id), action->input)
            &&& after == (PrefillRun {
                prompt_len: action->input.input_ids@.len() as usize,
                ..before
            }).at(PrefillPhase::Forward)
        } else {
            &&& after == before.at(PrefillPhase::Over)
            &&& action is Done
        },
        PrefillEvent::Forwarded { ok } => if ok {
            &&& after == before.at(PrefillPhase::Sample)
            &&& action == (PrefillAction::Sample { id })
        } else {
            &&& after == before.at(PrefillPhase::Over)
            &&& action == (PrefillAction::Fail { id, stage: TurnStage::Forward })
        },
        PrefillEvent::Sampled { token, .. } => match token {
            Some(token) => {
                &&& after == (PrefillRun { token, ..before }).at(PrefillPhase::Import)
                &&& action == (PrefillAction::Import { id, prompt_len: before.prompt_len })
            },
            None => {
                &&& after == before.at(PrefillPhase::Over)
                &&& action == (PrefillAction::Fail { id, stage: TurnStage::Sampling })
            },
        },
        PrefillEvent::Imported => {
            &&& after == before.at(PrefillPhase::SwapOut)
            &&& action == (PrefillAction::SwapOut { id })
        },
        PrefillEvent::SwappedOut { .. } => {
            &&& after == before.at(
                PrefillPhase::Send { complete: turns::is_complete(engine.sequence(id)) },
            )
            &&& action == (PrefillAction::Send { id, token: before.token })
        },
        PrefillEvent::Sent => {
            &&& after == before.at(PrefillPhase::Over)
            &&& action == if before.phase == (PrefillPhase::Send { complete: true }) {
                PrefillAction::Finish { id }
            } else {
                PrefillAction::Done
            }
        },
    }
}

/// The engine after an event.
pub open spec fn prefill_changes(
    before: InferenceEngine,
    run: PrefillRun,
    event: PrefillEvent,
    after: InferenceEngine,
) -> bool {
    match event {
        PrefillEvent::Sampled { token, greedy } => after == (InferenceEngine {
            stats: match token {
                Some(_) => turns::row_counted(before.stats, greedy),
                None => turns::failure_counted(before.stats),
            },
            ..before
        }),
        PrefillEvent::SwappedOut { timings } => turns::prefilled(
            before,
            after,
            run.id,
            run.prompt_len,
            run.token,
            timings,
        ),
        _ => after == before,
    }
}

impl InferenceEngine {
    /// Takes note of what came of the last action of a prefill, and decides what to do next.
    pub fn advance_prefill(&mut self, run: &mut PrefillRun, event: PrefillEvent) -> (result:
        PrefillAction)
        requires
            old(self).wf(),
            old(run).awaits(event),
            event is SwappedOut ==> {
                &&& old(self).has(old(run).id)
                &&& !old(self).scheduler.holds(old(run).id)
                &&& old(self).paged_kv_allocator.spare(old(run).prompt_len as int)
            },
        ensures
            final(self).wf(),
            prefill_changes(*old(self), *old(run), event, *final(self)),
            prefill_goes_on(*final(self), *old(run), event, *final(run), result),
    {
        let id: u64 = run.id;
        match event {
            PrefillEvent::Begin => {
                run.phase = PrefillPhase::SwapIn;
                PrefillAction::SwapIn { id }
            },
            PrefillEvent::SwappedIn { ok } => {
                if !ok {
                    run.phase = PrefillPhase::Over;
                    return PrefillAction::Fail { id, stage: TurnStage::SwapIn };
                }
                match self.step_input(id) {
                    Some(input) => {
                        run.prompt_len = input.input_ids.len();
                        run.phase = PrefillPhase::Forward;
                        PrefillAction::Forward { id, input }
                    },
                    None => {
                        run.phase = PrefillPhase::Over;
                        PrefillAction::Done
                    },
                }
            },
            PrefillEvent::Forwarded { ok } => {
                if ok {
                    run.phase = PrefillPhase::Sample;
                    PrefillAction::Sample { id }
                } else {
                    run.phase = PrefillPhase::Over;
                    PrefillAction::Fail { id, stage: TurnStage::Forward }
                }
            },
            PrefillEvent::Sampled { token, greedy } => match token {
                Some(token) => {
                    self.record_row_sampled(greedy);
                    run.token = token;
                    run.phase = PrefillPhase::Import;
                    PrefillAction::Import { id, prompt_len: run.prompt_len }
                },
                None => {
                    self.record_sampling_failure();
                    run.phase = PrefillPhase::Over;
                    PrefillAction::Fail { id, stage: TurnStage::Sampling }
                },
            },
            PrefillEvent::Imported => {
                run.phase = PrefillPhase::SwapOut;
                PrefillAction::SwapOut { id }
            },
            PrefillEvent::SwappedOut { timings } => {
                let complete = self.complete_prefill(id, run.prompt_len, run.token, timings);
                run.phase = PrefillPhase::Send { complete };
                PrefillAction::Send { id, token: run.token }
            },
            PrefillEvent::Sent => {
                let complete = match run.phase {
                    PrefillPhase::Send { complete } => complete,
                    _ => false,
                };
                run.phase = PrefillPhase::Over;
                if complete {
                    PrefillAction::Finish { id }
                } else {
                    PrefillAction::Done
                }
            },
        }
    }
}

/// Actions that a prefill can still ask for.
pub open spec fn prefill_left(run: PrefillRun) -> int {
    match run.phase {
        PrefillPhase::Start => 7,
        PrefillPhase::SwapIn => 6,
        PrefillPhase::Forward => 5,
        PrefillPhase::Sample => 4,
        PrefillPhase::Import => 3,
        PrefillPhase::SwapOut => 2,
        PrefillPhase::Send { .. } => 1,
        PrefillPhase::Over => 0,
    }
}

/// A prefill ends, and answers the client with a token or an error: it fails the sequence, or
/// goes on to what comes next.
pub proof fn law_prefill_ends(
    engine: InferenceEngine,
    before: PrefillRun,
    event: PrefillEvent,
    after: PrefillRun,
    action: PrefillAction,
)
    requires
        before.awaits(event),
        prefill_goes_on(engine, before, event, after, action),
        engine.has(before.id),
    ensures
        prefill_left(after) < prefill_left(before),
        after.phase is Over ==> action is Fail || before.phase is Send,
        action is Fail ==> after.phase is Over,
{
}

/// A prefill feeds the sequence's own tokens, imports as many as it fed, and sends the very token
/// that was sampled. It fails only when something failed, and finishes the sequence right away only
/// when that token completed it.
pub proof fn law_prefill_sends_what_was_sampled(
    engine: InferenceEngine,
    before: PrefillRun,
    event: PrefillEvent,
    after: PrefillRun,
    action: PrefillAction,
)
    requires
        before.awaits(event),
        prefill_goes_on(engine, before, event, after, action),
    ensures
        after.id == before.id,
        action matches PrefillAction::Forward { id, input } ==> id == before.id && engine.has(id)
            && turns::feeds(engine.sequence(id), input) && after.prompt_len
            == input.input_ids@.len() as usize,
        !(action is Forward) ==> after.prompt_len == before.prompt_len,
        event matches PrefillEvent::Sampled { token: Some(token), .. } ==> after.token == token
            && action == (PrefillAction::Import { id: before.id, prompt_len: before.prompt_len }),
        !(event is Sampled) ==> after.token == before.token,
        action matches PrefillAction::Send { id, token } ==> id == before.id && token
            == before.token,
        action matches PrefillAction::Fail { id, .. } ==> id == before.id && (event == (
        PrefillEvent::SwappedIn { ok: false }) || event == (PrefillEvent::Forwarded { ok: false })
            || event is Sampled),
        action matches PrefillAction::Finish { id } ==> id == before.id && before.phase == (
        PrefillPhase::Send { complete: true }),
        event is Sent && before.phase == (PrefillPhase::Send { complete: true }) ==> action is Finish,
{
}

} // verus!
