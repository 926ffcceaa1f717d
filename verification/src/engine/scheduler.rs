//! First-in first-out scheduling with prefill priority.
use std::collections::VecDeque;
use vstd::prelude::*;

verus! {

/// What to run next.
#[derive(Debug)]
pub struct SchedulerOutput {
    pub batch: Vec<u64>,
    pub is_prefill: bool,
}

/// Queues of sequence ids.
pub struct Scheduler {
    pub waiting: VecDeque<u64>,
    pub running: Vec<u64>,
    pub max_running: usize,
    /// A lower limit on running sequences that an eviction set.
    pub effective_max_running: Option<usize>,
}

/// `ids` without `id`.
pub open spec fn without(ids: Seq<u64>, id: u64) -> Seq<u64> {
    ids.filter(|x: u64| x != id)
}

/// Removing an id that is there once takes out that place.
pub proof fn lemma_without(ids: Seq<u64>, id: u64)
    ensures
        without(ids, id).len() <= ids.len(),
        !without(ids, id).contains(id),
        forall|x: u64| #[trigger] without(ids, id).contains(x) <==> ids.contains(x) && x != id,
        ids.no_duplicates() ==> without(ids, id).no_duplicates(),
        !ids.contains(id) ==> without(ids, id) == ids,
        ids.contains(id) ==> without(ids, id).len() < ids.len(),
    decreases ids.len(),
{
    reveal_with_fuel(Seq::filter, 2);
    if ids.len() > 0 {
        let head = ids.drop_last();
        lemma_without(head, id);
        let all = without(ids, id);
        if ids.last() != id {
            assert(all == without(head, id).push(ids.last()));
        } else {
            assert(all == without(head, id));
        }
        assert forall|x: u64| #[trigger] all.contains(x) <==> ids.contains(x) && x != id by {
            if ids.contains(x) && x != id {
                let k = ids.index_of(x);
                if k == ids.len() - 1 {
                    assert(all[all.len() - 1] == x);
                } else {
                    assert(head[k] == x);
                    assert(without(head, id).contains(x));
                    let j = without(head, id).index_of(x);
                    assert(all[j] == x);
                }
            }
            if all.contains(x) {
                let j = all.index_of(x);
                if j < without(head, id).len() {
                    assert(without(head, id)[j] == x);
                    assert(without(head, id).contains(x));
                    let k = head.index_of(x);
                    assert(ids[k] == x);
                } else {
                    assert(x == ids.last());
                    assert(ids[ids.len() - 1] == x);
                }
            }
        }
        if ids.no_duplicates() {
            assert(head.no_duplicates());
            assert forall|i: int, j: int|
                0 <= i < all.len() && 0 <= j < all.len() && i != j implies all[i] != all[j] by {
                if ids.last() != id {
                    let n = without(head, id).len() as int;
                    if i == n {
                        assert(without(head, id).contains(all[j]));
                        let k = head.index_of(all[j]);
                        assert(ids[k] != ids[ids.len() - 1]);
                    } else if j == n {
                        assert(without(head, id).contains(all[i]));
                        let k = head.index_of(all[i]);
                        assert(ids[k] != ids[ids.len() - 1]);
                    } else {
                        assert(without(head, id)[i] != without(head, id)[j]);
                    }
                }
            }
        }
        if !ids.contains(id) {
            assert(ids.last() != id) by {
                assert(ids[ids.len() - 1] == ids.last());
            }
            assert(!head.contains(id)) by {
                if head.contains(id) {
                    let k = head.index_of(id);
                    assert(ids[k] == id);
                }
            }
            assert(all =~= ids);
        } else if ids.last() != id {
            let k = ids.index_of(id);
            assert(head[k] == id);
        }
    } else {
        assert(without(ids, id) =~= ids);
    }
}

/// Limits are as they were.
pub open spec fn same_limits(before: Scheduler, after: Scheduler) -> bool {
    &&& after.max_running == before.max_running
    &&& after.effective_max_running == before.effective_max_running
}

/// `after` is `before` with a sequence behind those that wait.
pub open spec fn added(before: Scheduler, after: Scheduler, id: u64) -> bool {
    &&& after.waiting@ == before.waiting@.push(id)
    &&& after.running@ == before.running@
    &&& same_limits(before, after)
}

/// `after` is `before` with a sequence in front of those that wait.
pub open spec fn deferred(before: Scheduler, after: Scheduler, id: u64) -> bool {
    &&& after.waiting@ == seq![id] + before.waiting@
    &&& after.running@ == before.running@
    &&& same_limits(before, after)
}

/// `after` is `before` without a sequence.
pub open spec fn removed(before: Scheduler, after: Scheduler, id: u64) -> bool {
    &&& after.waiting@ == without(before.waiting@, id)
    &&& after.running@ == without(before.running@, id)
    &&& same_limits(before, after)
}

/// `after` is `before` with one more sequence that runs.
pub open spec fn promoted(before: Scheduler, after: Scheduler, id: u64) -> bool {
    &&& after.waiting@ == before.waiting@
    &&& after.running@ == before.running@.push(id)
    &&& same_limits(before, after)
}

/// `after` is `before` with a sequence that ran behind those that wait.
pub open spec fn preempted(before: Scheduler, after: Scheduler, id: u64) -> bool {
    &&& after.running@ == without(before.running@, id)
    &&& after.waiting@ == before.waiting@.push(id)
    &&& same_limits(before, after)
}

/// The first in line starts, if there is room; else all that run go on; else there is nothing to
/// do.
pub open spec fn scheduled(
    before: Scheduler,
    after: Scheduler,
    result: Option<SchedulerOutput>,
) -> bool {
    &&& same_limits(before, after)
    &&& after.running@ == before.running@
    &&& match result {
        Some(output) => if before.admits() {
            &&& output.is_prefill
            &&& output.batch@ == seq![before.waiting@[0]]
            &&& after.waiting@ == before.waiting@.skip(1)
            &&& !after.holds(before.waiting@[0])
        } else {
            &&& !output.is_prefill
            &&& before.running@.len() > 0
            &&& output.batch@ == before.running@
            &&& after.waiting@ == before.waiting@
        },
        None => {
            &&& before.waiting@.len() == 0
            &&& before.running@.len() == 0
            &&& after.waiting@ == before.waiting@
        },
    }
}

impl Scheduler {
    /// The running limit in force.
    pub open spec fn cap(&self) -> int {
        match self.effective_max_running {
            Some(cap) => cap as int,
            None => self.max_running as int,
        }
    }

    /// A waiting sequence may start: there is room, or nothing runs at all.
    pub open spec fn admits(&self) -> bool {
        &&& self.waiting@.len() > 0
        &&& self.running@.len() < self.cap() || self.running@.len() == 0
    }

    /// No sequence is queued twice.
    pub open spec fn wf(&self) -> bool {
        &&& self.waiting@.no_duplicates()
        &&& self.running@.no_duplicates()
        &&& forall|id: u64| #[trigger] self.waiting@.contains(id) ==> !self.running@.contains(id)
    }

    /// The sequence is queued.
    pub open spec fn holds(&self, id: u64) -> bool {
        self.waiting@.contains(id) || self.running@.contains(id)
    }

    pub fn new(max_running: usize) -> (result: Self)
        ensures
            result.wf(),
            result.waiting@.len() == 0,
            result.running@.len() == 0,
            result.max_running == max_running,
            result.effective_max_running is None,
    {
        Scheduler {
            waiting: VecDeque::new(),
            running: Vec::new(),
            max_running,
            effective_max_running: None,
        }
    }

    /// Queues a new sequence behind those that wait.
    pub fn add(&mut self, id: u64)
        ensures
            added(*old(self), *final(self), id),
            old(self).wf() && !old(self).holds(id) ==> final(self).wf(),
    {
        self.waiting.push_back(id);
        proof {
            if old(self).wf() && !old(self).holds(id) {
                lemma_push_keeps(*old(self), *self, id);
            }
        }
    }

    /// Puts a sequence that was about to start back in front of those that wait.
    pub fn defer(&mut self, id: u64)
        ensures
            deferred(*old(self), *final(self), id),
            old(self).wf() && !old(self).holds(id) ==> final(self).wf(),
    {
        self.waiting.push_front(id);
        assert(self.waiting@ =~= seq![id] + old(self).waiting@);
        proof {
            if old(self).wf() && !old(self).holds(id) {
                let before = old(self).waiting@;
                let after = self.waiting@;
                assert forall|i: int, j: int|
                    0 <= i < after.len() && 0 <= j < after.len() && i != j implies after[i]
                    != after[j] by {
                    if i == 0 {
                        assert(before[j - 1] == after[j]);
                    } else if j == 0 {
                        assert(before[i - 1] == after[i]);
                    } else {
                        assert(before[i - 1] != before[j - 1]);
                    }
                }
                assert forall|x: u64| #[trigger] after.contains(x) implies !self.running@.contains(
                    x,
                ) by {
                    let k = after.index_of(x);
                    if k > 0 {
                        assert(before[k - 1] == x);
                        assert(before.contains(x));
                    }
                }
            }
        }
    }

    /// Takes a sequence out of both queues.
    pub fn remove(&mut self, id: u64)
        ensures
            removed(*old(self), *final(self), id),
            old(self).wf() ==> final(self).wf(),
    {
        let ghost before = *self;
        let mut waiting: VecDeque<u64> = VecDeque::new();
        let mut i: usize = 0;
        assert(before.waiting@.take(0) =~= Seq::empty());
        assert(without(Seq::empty(), id) =~= Seq::<u64>::empty()) by {
            reveal_with_fuel(Seq::filter, 1);
        }
        while i < self.waiting.len()
            invariant
                i <= self.waiting@.len(),
                *self == before,
                waiting@ == without(before.waiting@.take(i as int), id),
            decreases self.waiting@.len() - i,
        {
            assert(before.waiting@.take(i + 1).drop_last() =~= before.waiting@.take(i as int));
            proof {
                reveal_with_fuel(Seq::filter, 2);
            }
            if self.waiting[i] != id {
                waiting.push_back(self.waiting[i]);
            }
            i = i + 1;
        }
        assert(before.waiting@.take(i as int) =~= before.waiting@);
        let running = drop_id(&self.running, id);
        self.waiting = waiting;
        self.running = running;
        proof {
            lemma_without(before.waiting@, id);
            lemma_without(before.running@, id);
        }
    }

    /// Makes a sequence run.
    pub fn promote_to_running(&mut self, id: u64)
        ensures
            promoted(*old(self), *final(self), id),
            old(self).wf() && !old(self).holds(id) ==> final(self).wf(),
    {
        self.running.push(id);
        proof {
            if old(self).wf() && !old(self).holds(id) {
                lemma_promote_keeps(*old(self), *self, id);
            }
        }
    }

    /// Moves a running sequence behind those that wait.
    pub fn preempt(&mut self, id: u64)
        ensures
            preempted(*old(self), *final(self), id),
            old(self).wf() && old(self).running@.contains(id) ==> final(self).wf(),
    {
        let ghost before = *self;
        self.running = drop_id(&self.running, id);
        self.waiting.push_back(id);
        proof {
            lemma_without(before.running@, id);
            if before.wf() && before.running@.contains(id) {
                assert(!before.waiting@.contains(id));
                let after = self.waiting@;
                assert forall|i: int, j: int|
                    0 <= i < after.len() && 0 <= j < after.len() && i != j implies after[i]
                    != after[j] by {
                    let n = before.waiting@.len() as int;
                    if i == n {
                        assert(before.waiting@[j] == after[j]);
                        assert(before.waiting@.contains(after[j]));
                    } else if j == n {
                        assert(before.waiting@[i] == after[i]);
                        assert(before.waiting@.contains(after[i]));
                    } else {
                        assert(before.waiting@[i] != before.waiting@[j]);
                    }
                }
                assert forall|x: u64| #[trigger] after.contains(x) implies !self.running@.contains(
                    x,
                ) by {
                    let k = after.index_of(x);
                    if k < before.waiting@.len() {
                        assert(before.waiting@[k] == x);
                        assert(before.waiting@.contains(x));
                    }
                }
            }
        }
    }

    /// Picks the next batch: one waiting sequence to prefill, as long as there is room, else
    /// all that run. The sequence to prefill leaves its queue.
    pub fn schedule(&mut self) -> (result: Option<SchedulerOutput>)
        requires
            old(self).wf(),
        ensures
            final(self).wf(),
            scheduled(*old(self), *final(self), result),
    {
        let ghost before = *self;
        let cap: usize = match self.effective_max_running {
            Some(cap) => cap,
            None => self.max_running,
        };
        if self.waiting.len() > 0 && (self.running.len() < cap || self.running.len() == 0) {
            match self.waiting.pop_front() {
                Some(id) => {
                    let mut batch: Vec<u64> = Vec::new();
                    batch.push(id);
                    assert(self.waiting@ =~= before.waiting@.skip(1));
                    assert(batch@ =~= seq![before.waiting@[0]]);
                    proof {
                        let after = self.waiting@;
                        assert forall|x: u64| #[trigger] after.contains(x) implies x != id
                            && before.waiting@.contains(x) by {
                            let k = after.index_of(x);
                            assert(before.waiting@[k + 1] == x);
                            assert(before.waiting@[0] != before.waiting@[k + 1]);
                        }
                        assert(before.waiting@.contains(id)) by {
                            assert(before.waiting@[0] == id);
                        }
                        assert forall|i: int, j: int|
                            0 <= i < after.len() && 0 <= j < after.len() && i != j implies after[i]
                            != after[j] by {
                            assert(before.waiting@[i + 1] != before.waiting@[j + 1]);
                        }
                    }
                    return Some(SchedulerOutput { batch, is_prefill: true });
                },
                None => {
                    assert(false);
                },
            }
        }
        if self.running.len() > 0 {
            let batch = copy_ids(&self.running);
            return Some(SchedulerOutput { batch, is_prefill: false });
        }
        None
    }
}

proof fn lemma_push_keeps(before: Scheduler, after: Scheduler, id: u64)
    requires
        before.wf(),
        !before.holds(id),
        after.waiting@ == before.waiting@.push(id),
        after.running@ == before.running@,
    ensures
        after.wf(),
{
    let list = after.waiting@;
    let n = before.waiting@.len() as int;
    assert forall|i: int, j: int|
        0 <= i < list.len() && 0 <= j < list.len() && i != j implies list[i] != list[j] by {
        if i == n {
            assert(before.waiting@[j] == list[j]);
        } else if j == n {
            assert(before.waiting@[i] == list[i]);
        } else {
            assert(before.waiting@[i] != before.waiting@[j]);
        }
    }
    assert forall|x: u64| #[trigger] list.contains(x) implies !after.running@.contains(x) by {
        let k = list.index_of(x);
        if k < n {
            assert(before.waiting@[k] == x);
            assert(before.waiting@.contains(x));
        }
    }
}

proof fn lemma_promote_keeps(before: Scheduler, after: Scheduler, id: u64)
    requires
        before.wf(),
        !before.holds(id),
        after.running@ == before.running@.push(id),
        after.waiting@ == before.waiting@,
    ensures
        after.wf(),
{
    let list = after.running@;
    let n = before.running@.len() as int;
    assert forall|i: int, j: int|
        0 <= i < list.len() && 0 <= j < list.len() && i != j implies list[i] != list[j] by {
        if i == n {
            assert(before.running@[j] == list[j]);
        } else if j == n {
            assert(before.running@[i] == list[i]);
        } else {
            assert(before.running@[i] != before.running@[j]);
        }
    }
    assert forall|x: u64| #[trigger] after.waiting@.contains(x) implies !list.contains(x) by {
        if list.contains(x) {
            let k = list.index_of(x);
            if k < n {
                assert(before.running@[k] == x);
                assert(before.running@.contains(x));
            }
        }
    }
}

/// A copy of a list of ids.
pub fn copy_ids(ids: &Vec<u64>) -> (result: Vec<u64>)
    ensures
        result@ == ids@,
{
    vstd::slice::slice_to_vec(ids.as_slice())
}

/// The list without `id`.
pub fn drop_id(ids: &Vec<u64>, id: u64) -> (result: Vec<u64>)
    ensures
        result@ == without(ids@, id),
{
    let mut result: Vec<u64> = Vec::new();
    let mut i: usize = 0;
    assert(ids@.take(0) =~= Seq::empty());
    assert(without(Seq::empty(), id) =~= Seq::<u64>::empty()) by {
        reveal_with_fuel(Seq::filter, 1);
    }
    while i < ids.len()
        invariant
            i <= ids@.len(),
            result@ == without(ids@.take(i as int), id),
        decreases ids@.len() - i,
    {
        assert(ids@.take(i + 1).drop_last() =~= ids@.take(i as int));
        proof {
            reveal_with_fuel(Seq::filter, 2);
        }
        if ids[i] != id {
            result.push(ids[i]);
        }
        i = i + 1;
    }
    assert(ids@.take(i as int) =~= ids@);
    result
}

/// What can happen to the queues.
pub enum QueueEvent {
    Added(u64),
    Scheduled(Option<SchedulerOutput>),
    Deferred(u64),
    Promoted(u64),
    Preempted(u64),
    Removed(u64),
}

impl QueueEvent {
    /// The event makes a sequence start.
    pub open spec fn starts(&self, id: u64) -> bool {
        self matches QueueEvent::Scheduled(Some(output)) && output.is_prefill && output.batch@[0]
            == id
    }
}

/// The event leads from `before` to `after`.
pub open spec fn leads(before: Scheduler, event: QueueEvent, after: Scheduler) -> bool {
    &&& before.wf() && after.wf()
    &&& match event {
        QueueEvent::Added(id) => added(before, after, id),
        QueueEvent::Scheduled(result) => scheduled(before, after, result),
        QueueEvent::Deferred(id) => deferred(before, after, id),
        QueueEvent::Promoted(id) => promoted(before, after, id),
        QueueEvent::Preempted(id) => preempted(before, after, id),
        QueueEvent::Removed(id) => removed(before, after, id),
    }
}

/// Each event leads from one state to the next.
pub open spec fn history(states: Seq<Scheduler>, events: Seq<QueueEvent>) -> bool {
    &&& states.len() == events.len() + 1
    &&& forall|k: int|
        0 <= k < events.len() ==> leads(states[k], #[trigger] events[k], states[k + 1])
}

/// The first of two sequences waits in front of the second.
pub open spec fn ahead(waiting: Seq<u64>, first: u64, second: u64) -> bool {
    exists|i: int, j: int|
        0 <= i < j < waiting.len() && #[trigger] waiting[i] == first && #[trigger] waiting[j]
            == second
}

proof fn lemma_ahead_without(waiting: Seq<u64>, first: u64, second: u64, id: u64)
    requires
        ahead(waiting, first, second),
        first != id,
        second != id,
    ensures
        ahead(without(waiting, id), first, second),
    decreases waiting.len(),
{
    reveal_with_fuel(Seq::filter, 2);
    let head = waiting.drop_last();
    let (i, j) = choose|i: int, j: int|
        0 <= i < j < waiting.len() && #[trigger] waiting[i] == first && #[trigger] waiting[j]
            == second;
    lemma_without(head, id);
    assert(head[i] == first);
    if j < waiting.len() - 1 {
        assert(head[j] == second);
        lemma_ahead_without(head, first, second, id);
        let (a, b) = choose|a: int, b: int|
            0 <= a < b < without(head, id).len() && #[trigger] without(head, id)[a] == first
                && #[trigger] without(head, id)[b] == second;
        assert(without(waiting, id)[a] == first && without(waiting, id)[b] == second);
    } else {
        assert(without(head, id).contains(first));
        let a = without(head, id).index_of(first);
        let all = without(waiting, id);
        assert(all[a] == first && all[all.len() - 1] == second);
    }
}

/// One event does not let a sequence overtake another one that waits before and after it.
proof fn lemma_no_overtaking(
    before: Scheduler,
    event: QueueEvent,
    after: Scheduler,
    first: u64,
    second: u64,
)
    requires
        leads(before, event, after),
        first != second,
        before.waiting@.contains(first),
        before.waiting@.contains(second) ==> ahead(before.waiting@, first, second),
        after.waiting@.contains(first),
        event != QueueEvent::Deferred(second),
    ensures
        after.waiting@.contains(second) ==> ahead(after.waiting@, first, second),
        !event.starts(second),
{
    let old_line = before.waiting@;
    let line = after.waiting@;
    let at = old_line.index_of(first);
    if old_line.contains(second) {
        let (i, j) = choose|i: int, j: int|
            0 <= i < j < old_line.len() && #[trigger] old_line[i] == first
                && #[trigger] old_line[j] == second;
        match event {
            QueueEvent::Added(id) => {
                assert(line[i] == first && line[j] == second);
            },
            QueueEvent::Preempted(id) => {
                assert(line[i] == first && line[j] == second);
            },
            QueueEvent::Promoted(id) => {},
            QueueEvent::Deferred(id) => {
                assert(line[i + 1] == first && line[j + 1] == second);
            },
            QueueEvent::Removed(id) => {
                lemma_without(old_line, id);
                if line.contains(second) {
                    lemma_ahead_without(old_line, first, second, id);
                }
            },
            QueueEvent::Scheduled(result) => {
                if before.admits() && result is Some {
                    if i == 0 {
                        let k = line.index_of(first);
                        assert(old_line[k + 1] == first);
                        assert(false);
                    }
                    assert(line[i - 1] == first && line[j - 1] == second);
                    assert(old_line[0] != old_line[j]);
                }
            },
        }
    } else if line.contains(second) {
        let k = line.index_of(second);
        match event {
            QueueEvent::Added(id) => {
                assert(k == old_line.len()) by {
                    if k < old_line.len() {
                        assert(old_line[k] == second);
                    }
                }
                assert(line[at] == first && line[k] == second);
            },
            QueueEvent::Preempted(id) => {
                assert(k == old_line.len()) by {
                    if k < old_line.len() {
                        assert(old_line[k] == second);
                    }
                }
                assert(line[at] == first && line[k] == second);
            },
            QueueEvent::Promoted(id) => {},
            QueueEvent::Deferred(id) => {
                assert(old_line[k - 1] == second);
            },
            QueueEvent::Removed(id) => {
                lemma_without(old_line, id);
            },
            QueueEvent::Scheduled(result) => {
                if before.admits() && result is Some {
                    assert(old_line[k + 1] == second);
                }
            },
        }
    }
    if event.starts(second) {
        assert(old_line[0] == second);
        assert(old_line.contains(second));
    }
}

/// Waiting sequences start in the order in which they came: while one waits, none that came after
/// it starts, whatever happens to the queues in between. A sequence that was to start and is put
/// back in front has not come after.
pub proof fn law_first_in_first_out(
    states: Seq<Scheduler>,
    events: Seq<QueueEvent>,
    first: u64,
    second: u64,
)
    requires
        history(states, events),
        ahead(states[0].waiting@, first, second),
        forall|k: int| 0 <= k < states.len() ==> (#[trigger] states[k]).waiting@.contains(first),
        forall|k: int|
            0 <= k < events.len() ==> #[trigger] events[k] != QueueEvent::Deferred(second),
    ensures
        forall|k: int| 0 <= k < events.len() ==> !(#[trigger] events[k]).starts(second),
        states.last().waiting@.contains(second) ==> ahead(
            states.last().waiting@,
            first,
            second,
        ),
    decreases events.len(),
{
    if events.len() > 0 {
        let n = events.len() - 1;
        let earlier = states.drop_last();
        let heads = events.drop_last();
        assert forall|k: int| 0 <= k < heads.len() implies leads(
            earlier[k],
            #[trigger] heads[k],
            earlier[k + 1],
        ) by {
            assert(leads(states[k], events[k], states[k + 1]));
        }
        assert forall|k: int| 0 <= k < earlier.len() implies (
        #[trigger] earlier[k]).waiting@.contains(first) by {
            assert(states[k].waiting@.contains(first));
        }
        assert forall|k: int| 0 <= k < heads.len() implies #[trigger] heads[k]
            != QueueEvent::Deferred(second) by {
            assert(events[k] != QueueEvent::Deferred(second));
        }
        assert(earlier[0] == states[0]);
        law_first_in_first_out(earlier, heads, first, second);
        assert(leads(states[n], events[n], states[n + 1]));
        assert(states[n].waiting@.contains(first) && states[n + 1].waiting@.contains(first));
        assert(first != second) by {
            let line = states[0].waiting@;
            let (i, j) = choose|i: int, j: int|
                0 <= i < j < line.len() && #[trigger] line[i] == first && #[trigger] line[j]
                    == second;
            assert(leads(states[0], events[0], states[1]));
            assert(line[i] != line[j]);
        }
        lemma_no_overtaking(states[n], events[n], states[n + 1], first, second);
        assert forall|k: int| 0 <= k < events.len() implies !(#[trigger] events[k]).starts(
            second,
        ) by {
            if k < n {
                assert(!heads[k].starts(second));
            }
        }
    }
}

/// A sequence that is added waits behind all that wait, and only the first in line is ever picked
/// to start.
pub proof fn law_first_in_line_starts(before: Scheduler, event: QueueEvent, after: Scheduler, id: u64)
    requires
        leads(before, event, after),
    ensures
        event == QueueEvent::Added(id) ==> forall|other: u64| #[trigger]
            before.waiting@.contains(other) ==> ahead(after.waiting@, other, id),
        event.starts(id) ==> before.waiting@.len() > 0 && before.waiting@[0] == id,
{
    if event == QueueEvent::Added(id) {
        assert forall|other: u64| #[trigger] before.waiting@.contains(other) implies ahead(
            after.waiting@,
            other,
            id,
        ) by {
            let i = before.waiting@.index_of(other);
            let n = before.waiting@.len() as int;
            assert(after.waiting@[i] == other && after.waiting@[n] == id);
        }
    }
}

/// A sequence starts only while fewer run than the limit in force allows, or while none runs at
/// all; and one that waits is not held up for any other reason. A step without a start continues
/// all that run, each once.
pub proof fn law_limit_decides_who_starts(
    before: Scheduler,
    after: Scheduler,
    result: Option<SchedulerOutput>,
)
    requires
        before.wf(),
        scheduled(before, after, result),
    ensures
        result is None <==> forall|id: u64| !#[trigger] before.holds(id),
        result matches Some(output) ==> ({
            let limit = match before.effective_max_running {
                Some(lower) => lower as int,
                None => before.max_running as int,
            };
            let room = before.running@.len() < limit || before.running@.len() == 0;
            let wanted = before.waiting@.len() > 0;
            &&& output.is_prefill <==> room && wanted
            &&& output.is_prefill ==> output.batch@.len() == 1 && before.waiting@.contains(
                output.batch@[0],
            ) && after.waiting@.len() == before.waiting@.len() - 1
            &&& !output.is_prefill ==> output.batch@.no_duplicates() && forall|id: u64|
                #![trigger output.batch@.contains(id)]
                output.batch@.contains(id) <==> before.running@.contains(id)
        }),
{
    if before.waiting@.len() > 0 {
        assert(before.waiting@.contains(before.waiting@[0]));
        assert(before.holds(before.waiting@[0]));
    }
    if before.running@.len() > 0 {
        assert(before.running@.contains(before.running@[0]));
        assert(before.holds(before.running@[0]));
    }
}

} // verus!
