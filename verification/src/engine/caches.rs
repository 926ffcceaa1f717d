//! Moves keys and values between sequences and the model, and counts their bytes.
use super::sequence::{self, Sequence};
use super::state::{self, InferenceEngine};
use crate::stats::{Counter, EngineStats};
use crate::tensors::{self, LayerKvCaches};
use candle_core::Tensor;
use vstd::prelude::*;

verus! {

/// What to do so that the model works on a sequence.
#[derive(Debug, Clone, Copy, PartialEq, Eq, Structural)]
pub enum SwapInPlan {
    /// It does already.
    Active,
    /// Its caches cannot be exchanged: clear them.
    Clear,
    /// Exchange the caches; first save those of the sequence that is active, if there is one.
    Exchange { save: Option<u64> },
}

/// What is missing before caches can be loaded into the model.
#[derive(Debug, Clone, Copy, PartialEq, Eq, Structural)]
pub enum SwapInNext {
    /// Nothing: the sequence has what it needs.
    Load,
    /// The keys and values of the sequence are in pages only and have to be gathered.
    Gather,
}

/// Bytes that a sequence's keys and values take, in the model or outside.
pub open spec fn own_bytes(sequence: Sequence, active: Option<u64>, active_bytes: u64) -> int {
    if active == Some(sequence.id) {
        active_bytes as int
    } else {
        tensors::capped(
            tensors::caches_bytes(sequence.kv_caches@, sequence.kv_caches@.len() as int),
        )
    }
}

/// Bytes of all sequences.
pub open spec fn total_bytes(
    sequences: Seq<Sequence>,
    active: Option<u64>,
    active_bytes: u64,
) -> int
    decreases sequences.len(),
{
    if sequences.len() == 0 {
        0
    } else {
        total_bytes(sequences.drop_last(), active, active_bytes) + own_bytes(
            sequences.last(),
            active,
            active_bytes,
        )
    }
}

proof fn lemma_total_bytes_nonnegative(
    sequences: Seq<Sequence>,
    active: Option<u64>,
    active_bytes: u64,
)
    ensures
        total_bytes(sequences, active, active_bytes) >= 0,
    decreases sequences.len(),
{
    if sequences.len() > 0 {
        lemma_total_bytes_nonnegative(sequences.drop_last(), active, active_bytes);
        let caches = sequences.last().kv_caches@;
        tensors::lemma_caches_bytes_nonnegative(caches, caches.len() as int);
    }
}

/// `engine` with its KV bytes counted anew, `active_bytes` of them in the model.
pub open spec fn recounted(engine: InferenceEngine, active_bytes: u64) -> InferenceEngine {
    let total = tensors::capped(
        total_bytes(engine.sequences@, engine.active, active_bytes),
    ) as u64;
    InferenceEngine {
        tracked_kv_bytes: total,
        stats: EngineStats { tracked_kv_cache_bytes: Counter { value: total }, ..engine.stats },
        ..engine
    }
}

/// `after` is `before` with these caches given to sequence `id`; nothing happens without such a
/// sequence.
pub open spec fn given(
    before: InferenceEngine,
    after: InferenceEngine,
    id: u64,
    caches: Seq<Option<(Tensor, Tensor)>>,
) -> bool {
    if !before.has(id) {
        after == before
    } else {
        let i = state::index_of(before.sequences@, id);
        let own = after.sequences@[i].kv_caches;
        &&& own@ == caches
        &&& after.sequences@ == before.sequences@.update(
            i,
            Sequence { kv_caches: own, ..before.sequences@[i] },
        )
        &&& after == (InferenceEngine { sequences: after.sequences, ..before })
    }
}

/// Giving a sequence caches changes nothing else.
pub proof fn lemma_given_keeps_wf(
    before: InferenceEngine,
    after: InferenceEngine,
    id: u64,
    caches: Seq<Option<(Tensor, Tensor)>>,
)
    requires
        before.wf(),
        given(before, after, id, caches),
    ensures
        after.wf(),
        forall|other: u64| #[trigger] after.has(other) <==> before.has(other),
        forall|other: u64|
            before.has(other) ==> #[trigger] state::index_of(after.sequences@, other)
                == state::index_of(before.sequences@, other),
{
    if before.has(id) {
        assert forall|i: int| #![trigger after.sequences@[i]]
            0 <= i < before.sequences@.len() implies after.sequences@[i].wf() && (
        before.sequences@[i].id == after.sequences@[i].id) by {
            assert(before.sequences@[i].wf());
        }
        state::lemma_same_books_keep_wf(before, after);
    }
}

impl InferenceEngine {
    /// Counts the KV bytes of all sequences, `active_bytes` of them in the model.
    pub fn recount_kv_bytes(&mut self, active_bytes: u64)
        ensures
            *final(self) == recounted(*old(self), active_bytes),
            old(self).wf() ==> final(self).wf(),
    {
        let mut total: u64 = 0;
        let mut i: usize = 0;
        let ghost all = self.sequences@;
        while i < self.sequences.len()
            invariant
                i <= all.len(),
                *self == *old(self),
                all == self.sequences@,
                total == tensors::capped(
                    total_bytes(all.take(i as int), self.active, active_bytes),
                ),
            decreases all.len() - i,
        {
            assert(all.take(i + 1).drop_last() =~= all.take(i as int));
            let seq = &self.sequences[i];
            proof {
                lemma_total_bytes_nonnegative(all.take(i as int), self.active, active_bytes);
                tensors::lemma_caches_bytes_nonnegative(
                    seq.kv_caches@,
                    seq.kv_caches@.len() as int,
                );
            }
            let is_active = match self.active {
                Some(id) => id == seq.id,
                None => false,
            };
            let bytes: u64 = if is_active {
                active_bytes
            } else {
                tensors::kv_cache_bytes(seq.kv_caches.as_slice())
            };
            total = total.saturating_add(bytes);
            i = i + 1;
        }
        assert(all.take(i as int) =~= all);
        self.tracked_kv_bytes = total;
        self.stats.tracked_kv_cache_bytes.store(total);
    }

    /// Gives a sequence its caches.
    pub fn set_caches(&mut self, id: u64, caches: LayerKvCaches)
        requires
            old(self).wf(),
        ensures
            final(self).wf(),
            given(*old(self), *final(self), id, caches@),
    {
        let ghost before = *self;
        match self.find(id) {
            None => {},
            Some(i) => {
                let seq: &mut Sequence = &mut self.sequences[i];
                seq.kv_caches = caches;
                assert(self.sequences@ =~= before.sequences@.update(
                    i as int,
                    self.sequences@[i as int],
                ));
                proof {
                    lemma_given_keeps_wf(before, *self, id, caches@);
                }
            },
        }
    }

    /// What swapping sequence `id` in takes.
    pub open spec fn swap_plan(&self, id: u64) -> SwapInPlan {
        if self.active == Some(id) {
            SwapInPlan::Active
        } else if !self.settings.supports_kv_swap {
            SwapInPlan::Clear
        } else {
            SwapInPlan::Exchange { save: self.active }
        }
    }

    pub fn plan_swap_in(&self, id: u64) -> (result: SwapInPlan)
        ensures
            result == self.swap_plan(id),
    {
        match self.active {
            Some(active) => {
                if active == id {
                    return SwapInPlan::Active;
                }
            },
            None => {},
        }
        if !self.settings.supports_kv_swap {
            return SwapInPlan::Clear;
        }
        SwapInPlan::Exchange { save: self.active }
    }

    /// The keys and values of sequence `id` are in pages only.
    pub open spec fn only_in_pages(&self, id: u64) -> bool {
        &&& self.has(id)
        &&& !self.sequence(id).has_caches()
        &&& self.sequence(id).paged_kv.token_len > 0
    }

    /// Makes the sequence the active one without exchanging caches, for a model that cannot.
    pub fn swap_in_cleared(&mut self, id: u64)
        requires
            old(self).wf(),
            old(self).has(id),
        ensures
            final(self).wf(),
            *final(self) == (InferenceEngine { active: Some(id), ..*old(self) }),
    {
        self.active = Some(id);
    }

    /// Saves the caches that the model holds with the active sequence, and says what is missing
    /// before those of sequence `id` can be loaded.
    pub fn swap_in_save(&mut self, id: u64, held: LayerKvCaches) -> (result: SwapInNext)
        requires
            old(self).wf(),
        ensures
            final(self).wf(),
            match old(self).active {
                Some(previous) => given(*old(self), *final(self), previous, held@),
                None => *final(self) == *old(self),
            },
            result == if final(self).only_in_pages(id) {
                SwapInNext::Gather
            } else {
                SwapInNext::Load
            },
    {
        match self.active {
            Some(previous) => {
                self.set_caches(previous, held);
            },
            None => {},
        }
        match self.find(id) {
            Some(i) => {
                if !self.sequences[i].any_cache() && self.sequences[i].paged_kv.token_len() > 0 {
                    SwapInNext::Gather
                } else {
                    SwapInNext::Load
                }
            },
            None => SwapInNext::Load,
        }
    }

    /// The caches to load into the model for sequence `id`.
    pub fn caches_to_load(&self, id: u64) -> (result: LayerKvCaches)
        requires
            self.wf(),
        ensures
            result@ == if self.has(id) {
                self.sequence(id).kv_caches@
            } else {
                sequence::no_caches(self.settings.num_layers as int)
            },
    {
        match self.find(id) {
            Some(i) => tensors::share_caches(self.sequences[i].kv_caches.as_slice()),
            None => sequence::empty_caches(self.settings.num_layers),
        }
    }

    /// Makes the sequence the active one after its caches were loaded; the model holds
    /// `active_bytes` bytes of them.
    pub fn swap_in_loaded(&mut self, id: u64, active_bytes: u64)
        requires
            old(self).wf(),
            old(self).has(id),
        ensures
            final(self).wf(),
            ({
                let counted = recounted(
                    InferenceEngine { active: Some(id), ..*old(self) },
                    active_bytes,
                );
                *final(self) == (InferenceEngine {
                    stats: EngineStats {
                        total_kv_swap_count: old(self).stats.total_kv_swap_count.plus(1),
                        ..counted.stats
                    },
                    ..counted
                })
            }),
    {
        self.active = Some(id);
        self.recount_kv_bytes(active_bytes);
        self.stats.total_kv_swap_count.fetch_add(1);
    }

    /// Ends the turn of sequence `id`: where it is the active one of a model that can swap, the
    /// model's caches are the ones that count, and those of the sequence are dropped.
    pub fn swap_out(&mut self, id: u64, active_bytes: u64)
        requires
            old(self).wf(),
        ensures
            final(self).wf(),
            !old(self).settings.supports_kv_swap || old(self).active != Some(id) ==> *final(self)
                == *old(self),
            old(self).settings.supports_kv_swap && old(self).active == Some(id)
                ==> turn_ended(*old(self), *final(self), id, active_bytes),
    {
        if !self.settings.supports_kv_swap {
            return;
        }
        let is_active = match self.active {
            Some(active) => active == id,
            None => false,
        };
        if !is_active {
            return;
        }
        let ghost before = *self;
        match self.find(id) {
            Some(i) => {
                if self.sequences[i].any_cache() {
                    let layers: usize = self.sequences[i].kv_caches.len();
                    self.set_caches(id, sequence::empty_caches(layers));
                } else {
                    proof {
                        let own = self.sequences@[i as int];
                        assert(own.kv_caches@ =~= sequence::no_caches(
                            own.kv_caches@.len() as int,
                        ));
                        assert(self.sequences@ =~= self.sequences@.update(i as int, own));
                    }
                }
            },
            None => {},
        }
        let ghost middle = *self;
        assert(given(
            before,
            middle,
            id,
            sequence::no_caches(before.sequence(id).kv_caches@.len() as int),
        ));
        self.recount_kv_bytes(active_bytes);
    }
}

/// `after` is `before` with the caches of sequence `id` dropped and all bytes counted.
pub open spec fn turn_ended(
    before: InferenceEngine,
    after: InferenceEngine,
    id: u64,
    active_bytes: u64,
) -> bool {
    let middle = InferenceEngine { sequences: after.sequences, ..before };
    &&& given(
        before,
        middle,
        id,
        sequence::no_caches(before.sequence(id).kv_caches@.len() as int),
    )
    &&& after == recounted(middle, active_bytes)
}

/// Counting anew is exact: right after it, the tracked bytes are what all sequences hold, as far
/// as 64 bits go, and counting again changes nothing.
pub proof fn law_recount_is_stable(engine: InferenceEngine, active_bytes: u64)
    ensures
        recounted(recounted(engine, active_bytes), active_bytes) == recounted(
            engine,
            active_bytes,
        ),
        recounted(engine, active_bytes).tracked_kv_bytes
            == recounted(engine, active_bytes).stats.tracked_kv_cache_bytes.value,
{
}

/// What is counted: of the sequence that the model holds what the model reports, of every other one
/// the bytes of its own keys and values, and nothing where there is no sequence.
pub proof fn law_bytes_add_up(
    sequences: Seq<Sequence>,
    last: Sequence,
    active: Option<u64>,
    active_bytes: u64,
)
    requires
        tensors::caches_bytes(last.kv_caches@, last.kv_caches@.len() as int) <= u64::MAX,
    ensures
        total_bytes(Seq::empty(), active, active_bytes) == 0,
        active == Some(last.id) ==> total_bytes(sequences.push(last), active, active_bytes)
            == total_bytes(sequences, active, active_bytes) + active_bytes,
        active != Some(last.id) ==> total_bytes(sequences.push(last), active, active_bytes)
            == total_bytes(sequences, active, active_bytes) + tensors::caches_bytes(
            last.kv_caches@,
            last.kv_caches@.len() as int,
        ),
{
    assert(sequences.push(last).drop_last() =~= sequences);
    tensors::lemma_caches_bytes_nonnegative(last.kv_caches@, last.kv_caches@.len() as int);
}

/// Caches go to the sequence that they are given to, and to no other.
pub proof fn law_caches_go_to_their_sequence(
    before: InferenceEngine,
    after: InferenceEngine,
    id: u64,
    caches: Seq<Option<(Tensor, Tensor)>>,
    other: u64,
)
    requires
        before.wf(),
        given(before, after, id, caches),
        before.has(other),
    ensures
        after.has(other),
        other == id ==> after.sequence(other).kv_caches@ == caches,
        other != id ==> after.sequence(other) == before.sequence(other),
        after.sequence(other).tokens == before.sequence(other).tokens,
        after.sequence(other).paged_kv == before.sequence(other).paged_kv,
{
    lemma_given_keeps_wf(before, after, id, caches);
    assert(after.has(other));
    let k = state::index_of(before.sequences@, other);
    assert(before.sequences@[k].id == other);
    assert(state::index_of(after.sequences@, other) == k);
}

/// The model's caches are exchanged only for another sequence, and what it held goes to the
/// sequence that it held it for. A sequence that the model holds already is left there.
pub proof fn law_swap_saves_what_was_held(engine: InferenceEngine, id: u64)
    ensures
        engine.swap_plan(id) == SwapInPlan::Active <==> engine.active == Some(id),
        engine.swap_plan(id) matches SwapInPlan::Exchange { save } ==> save == engine.active && save
            != Some(id) && engine.settings.supports_kv_swap,
        engine.swap_plan(id) == SwapInPlan::Clear ==> !engine.settings.supports_kv_swap,
{
}

/// After its turn a sequence has no caches outside the model, the others have theirs, and the bytes
/// that are tracked are those of all of them.
pub proof fn law_turn_leaves_the_caches_to_the_model(
    before: InferenceEngine,
    after: InferenceEngine,
    id: u64,
    active_bytes: u64,
    other: u64,
)
    requires
        before.wf(),
        before.has(id),
        before.has(other),
        turn_ended(before, after, id, active_bytes),
    ensures
        after.has(id) && after.has(other),
        !after.sequence(id).has_caches(),
        other != id ==> after.sequence(other) == before.sequence(other),
        after.sequence(id).tokens == before.sequence(id).tokens,
        total_bytes(after.sequences@, after.active, active_bytes) <= u64::MAX
            ==> after.tracked_kv_bytes == total_bytes(
            after.sequences@,
            after.active,
            active_bytes,
        ),
{
    let layers = before.sequence(id).kv_caches@.len() as int;
    let middle = InferenceEngine { sequences: after.sequences, ..before };
    law_caches_go_to_their_sequence(before, middle, id, sequence::no_caches(layers), other);
    law_caches_go_to_their_sequence(before, middle, id, sequence::no_caches(layers), id);
    let own = after.sequence(id).kv_caches@;
    assert forall|i: int| 0 <= i < own.len() implies (#[trigger] own[i]) is None by {
        assert(sequence::no_caches(layers)[i] is None);
    }
    lemma_total_bytes_nonnegative(after.sequences@, after.active, active_bytes);
}

} // verus!
