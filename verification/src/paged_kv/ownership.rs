//! What the allocator keeps true of all sequences together.
use super::allocator::{self, PagedKvAllocator};
use super::sequence::{self, PagedKvSequence};
use crate::arith;
use vstd::prelude::*;

verus! {

/// Every page handed out so far is owned by exactly one block or is on the free list once.
pub open spec fn pages_partitioned(
    allocator: PagedKvAllocator,
    sequences: Seq<PagedKvSequence>,
) -> bool {
    let free = allocator.free_pages@;
    &&& allocator.wf()
    &&& forall|i: int|
        0 <= i < sequences.len() ==> (#[trigger] sequences[i]).wf() && sequences[i].block_size
            == allocator.block_size
    &&& forall|i: int, k: int|
        0 <= i < sequences.len() && 0 <= k < sequences[i].blocks@.len() ==> 1 <= (
        #[trigger] sequences[i].blocks@[k]).id < allocator.next_page_id
    &&& forall|f: int| 0 <= f < free.len() ==> 1 <= #[trigger] free[f] < allocator.next_page_id
    &&& forall|i: int, k: int, j: int, l: int|
        0 <= i < sequences.len() && 0 <= k < sequences[i].blocks@.len() && 0 <= j < sequences.len()
            && 0 <= l < sequences[j].blocks@.len() && (i != j || k != l) ==> (
        #[trigger] sequences[i].blocks@[k]).id != (#[trigger] sequences[j].blocks@[l]).id
    &&& forall|f: int, g: int| 0 <= f < g < free.len() ==> #[trigger] free[f] != #[trigger] free[g]
    &&& forall|i: int, k: int, f: int|
        0 <= i < sequences.len() && 0 <= k < sequences[i].blocks@.len() && 0 <= f < free.len()
            ==> (#[trigger] sequences[i].blocks@[k]).id != #[trigger] free[f]
    &&& allocator.live_pages == allocator::total_blocks(sequences)
    &&& allocator.live_pages + free.len() == allocator.next_page_id - 1
}

proof fn lemma_total_blocks_update(
    sequences: Seq<PagedKvSequence>,
    index: int,
    value: PagedKvSequence,
)
    requires
        0 <= index < sequences.len(),
    ensures
        allocator::total_blocks(sequences.update(index, value)) == allocator::total_blocks(
            sequences,
        ) - sequences[index].blocks@.len() + value.blocks@.len(),
    decreases sequences.len(),
{
    let updated = sequences.update(index, value);
    if index == sequences.len() - 1 {
        assert(updated.drop_last() =~= sequences.drop_last());
    } else {
        assert(updated.drop_last() =~= sequences.drop_last().update(index, value));
        lemma_total_blocks_update(sequences.drop_last(), index, value);
    }
}

/// The blocks of one sequence are among the pages in use.
pub proof fn lemma_own_blocks_are_live(sequences: Seq<PagedKvSequence>, index: int)
    requires
        0 <= index < sequences.len(),
    ensures
        sequences[index].blocks@.len() <= allocator::total_blocks(sequences),
{
    allocator::lemma_total_blocks_prefix(sequences, index + 1);
    assert(sequences.take(index + 1).drop_last() =~= sequences.take(index));
    allocator::lemma_total_blocks_prefix(sequences, index);
}

/// Who owns a page does not depend on how much of a sequence is on the device.
pub proof fn lemma_same_blocks_stay_partitioned(
    allocator: PagedKvAllocator,
    before: Seq<PagedKvSequence>,
    after: Seq<PagedKvSequence>,
)
    requires
        pages_partitioned(allocator, before),
        after.len() == before.len(),
        forall|i: int| #![trigger after[i]]
            0 <= i < before.len() ==> after[i].wf() && after[i].block_size == before[i].block_size
                && after[i].blocks@ == before[i].blocks@,
    ensures
        pages_partitioned(allocator, after),
{
    lemma_same_blocks_total(before, after);
    assert forall|i: int| 0 <= i < after.len() implies (#[trigger] after[i]).wf()
        && after[i].block_size == allocator.block_size by {
        assert(before[i].block_size == allocator.block_size);
    }
    assert forall|i: int, k: int|
        0 <= i < after.len() && 0 <= k < after[i].blocks@.len() implies 1 <= (
    #[trigger] after[i].blocks@[k]).id < allocator.next_page_id by {
        assert(after[i].blocks@[k] == before[i].blocks@[k]);
    }
    assert forall|i: int, k: int, j: int, l: int|
        0 <= i < after.len() && 0 <= k < after[i].blocks@.len() && 0 <= j < after.len() && 0 <= l
            < after[j].blocks@.len() && (i != j || k != l) implies (
    #[trigger] after[i].blocks@[k]).id != (#[trigger] after[j].blocks@[l]).id by {
        assert(after[i].blocks@[k] == before[i].blocks@[k]);
        assert(after[j].blocks@[l] == before[j].blocks@[l]);
    }
    assert forall|i: int, k: int, f: int|
        0 <= i < after.len() && 0 <= k < after[i].blocks@.len() && 0 <= f
            < allocator.free_pages@.len() implies (#[trigger] after[i].blocks@[k]).id
        != #[trigger] allocator.free_pages@[f] by {
        assert(after[i].blocks@[k] == before[i].blocks@[k]);
    }
}

proof fn lemma_same_blocks_total(before: Seq<PagedKvSequence>, after: Seq<PagedKvSequence>)
    requires
        after.len() == before.len(),
        forall|i: int| #![trigger after[i]]
            0 <= i < before.len() ==> after[i].blocks@ == before[i].blocks@,
    ensures
        allocator::total_blocks(after) == allocator::total_blocks(before),
    decreases before.len(),
{
    if before.len() > 0 {
        assert forall|i: int| #![trigger after.drop_last()[i]]
            0 <= i < before.drop_last().len() implies after.drop_last()[i].blocks@
            == before.drop_last()[i].blocks@ by {
            assert(after[i].blocks@ == before[i].blocks@);
        }
        lemma_same_blocks_total(before.drop_last(), after.drop_last());
        assert(after[before.len() - 1].blocks@ == before[before.len() - 1].blocks@);
    }
}

/// A new allocator owns no page, so it is partitioned over sequences without blocks.
pub proof fn law_new_allocator_partitions(
    fresh: PagedKvAllocator,
    sequences: Seq<PagedKvSequence>,
)
    requires
        fresh.wf(),
        fresh.next_page_id == 1,
        fresh.free_pages@.len() == 0,
        fresh.live_pages == 0,
        forall|i: int|
            0 <= i < sequences.len() ==> (#[trigger] sequences[i]).wf()
                && sequences[i].block_size == fresh.block_size && sequences[i].blocks@.len() == 0,
    ensures
        pages_partitioned(fresh, sequences),
    decreases sequences.len(),
{
    if sequences.len() > 0 {
        assert forall|i: int| 0 <= i < sequences.drop_last().len() implies (
        #[trigger] sequences.drop_last()[i]).wf() && sequences.drop_last()[i].block_size
            == fresh.block_size && sequences.drop_last()[i].blocks@.len() == 0 by {
            assert(sequences[i].wf());
        }
        law_new_allocator_partitions(fresh, sequences.drop_last());
        assert(sequences[sequences.len() - 1].wf());
    }
}

/// Growing or cutting one sequence keeps pages partitioned.
pub proof fn law_growth_keeps_partition(
    before: PagedKvAllocator,
    sequences: Seq<PagedKvSequence>,
    index: int,
    token_len: usize,
    after: PagedKvAllocator,
    grown: PagedKvSequence,
)
    requires
        pages_partitioned(before, sequences),
        0 <= index < sequences.len(),
        before.room_for(before.missing_pages(sequences[index], token_len as int)),
        after.acquired_from(before, before.missing_pages(sequences[index], token_len as int)),
        before.grown(sequences[index], token_len, grown),
    ensures
        pages_partitioned(after, sequences.update(index, grown)),
{
    let own = sequences[index];
    let missing = before.missing_pages(own, token_len as int);
    let updated = sequences.update(index, grown);
    let free = before.free_pages@;
    let kept = own.blocks@.len() as int;
    lemma_total_blocks_update(sequences, index, grown);
    assert(own.retargeted(before.block_size).1 == own.blocks@);
    assert(grown.page_ids().len() == kept + missing);
    assert(grown.blocks@.len() == kept + missing);
    assert forall|k: int| 0 <= k < grown.blocks@.len() implies (#[trigger] grown.blocks@[k]).id
        == if k < kept {
        own.blocks@[k].id
    } else {
        before.acquired_id(k - kept)
    } by {
        assert(grown.page_ids()[k] == grown.blocks@[k].id);
        if k < kept {
            assert(sequence::block_ids(own.blocks@)[k] == own.blocks@[k].id);
        }
    }
    assert forall|n: int| 0 <= n < missing implies {
        let id = #[trigger] before.acquired_id(n);
        &&& 1 <= id < after.next_page_id
        &&& forall|f: int| 0 <= f < after.free_pages@.len() ==> #[trigger] after.free_pages@[f] != id
        &&& forall|i: int, k: int|
            0 <= i < sequences.len() && 0 <= k < sequences[i].blocks@.len() ==> (
            #[trigger] sequences[i].blocks@[k]).id != id
    } by {
        if n < free.len() {
            assert(before.acquired_id(n) == free[free.len() - 1 - n]);
        }
    }
    assert forall|n: int, m: int| 0 <= n < m < missing implies #[trigger] before.acquired_id(n)
        != #[trigger] before.acquired_id(m) by {
        if m < free.len() {
            assert(free[free.len() - 1 - m] != free[free.len() - 1 - n]);
        } else if n < free.len() {
            assert(free[free.len() - 1 - n] < before.next_page_id);
        }
    }
    assert forall|i: int| 0 <= i < updated.len() implies (#[trigger] updated[i]).wf()
        && updated[i].block_size == after.block_size by {
        if i != index {
            assert(updated[i] == sequences[i]);
        }
    }
    assert forall|i: int, k: int, j: int, l: int|
        0 <= i < updated.len() && 0 <= k < updated[i].blocks@.len() && 0 <= j < updated.len() && 0
            <= l < updated[j].blocks@.len() && (i != j || k != l) implies (
    #[trigger] updated[i].blocks@[k]).id != (#[trigger] updated[j].blocks@[l]).id by {
        let a = updated[i].blocks@[k].id;
        let b = updated[j].blocks@[l].id;
        if i == index && k >= kept {
            assert(a == before.acquired_id(k - kept));
            if j == index && l >= kept {
                assert(b == before.acquired_id(l - kept));
            } else {
                assert(b == sequences[j].blocks@[l].id);
            }
        } else {
            assert(a == sequences[i].blocks@[k].id);
            if j == index && l >= kept {
                assert(b == before.acquired_id(l - kept));
            } else {
                assert(b == sequences[j].blocks@[l].id);
            }
        }
    }
    assert forall|i: int, k: int|
        0 <= i < updated.len() && 0 <= k < updated[i].blocks@.len() implies 1 <= (
    #[trigger] updated[i].blocks@[k]).id < after.next_page_id by {
        if i == index && k >= kept {
            assert(updated[i].blocks@[k].id == before.acquired_id(k - kept));
        } else {
            assert(updated[i].blocks@[k].id == sequences[i].blocks@[k].id);
        }
    }
    assert forall|i: int, k: int, f: int|
        0 <= i < updated.len() && 0 <= k < updated[i].blocks@.len() && 0 <= f
            < after.free_pages@.len() implies (#[trigger] updated[i].blocks@[k]).id
        != #[trigger] after.free_pages@[f] by {
        assert(after.free_pages@[f] == free[f]);
        if i == index && k >= kept {
            assert(updated[i].blocks@[k].id == before.acquired_id(k - kept));
        } else {
            assert(updated[i].blocks@[k].id == sequences[i].blocks@[k].id);
        }
    }
    assert forall|f: int| 0 <= f < after.free_pages@.len() implies 1
        <= #[trigger] after.free_pages@[f] < after.next_page_id by {
        assert(after.free_pages@[f] == free[f]);
    }
    assert forall|f: int, g: int| 0 <= f < g < after.free_pages@.len() implies
        #[trigger] after.free_pages@[f] != #[trigger] after.free_pages@[g] by {
        assert(after.free_pages@[f] == free[f]);
        assert(after.free_pages@[g] == free[g]);
    }
}

/// Releasing one sequence keeps pages partitioned: its pages become free.
pub proof fn law_release_keeps_partition(
    before: PagedKvAllocator,
    sequences: Seq<PagedKvSequence>,
    index: int,
    after: PagedKvAllocator,
    released: PagedKvSequence,
)
    requires
        pages_partitioned(before, sequences),
        0 <= index < sequences.len(),
        after.wf(),
        after.block_size == before.block_size,
        after.next_page_id == before.next_page_id,
        after.free_pages@ == before.free_pages@ + sequences[index].page_ids(),
        after.live_pages == before.live_pages - sequences[index].blocks@.len(),
        released.wf(),
        released.block_size == before.block_size,
        released.blocks@.len() == 0,
    ensures
        pages_partitioned(after, sequences.update(index, released)),
{
    let own = sequences[index];
    let updated = sequences.update(index, released);
    let free = before.free_pages@;
    let n = free.len() as int;
    lemma_total_blocks_update(sequences, index, released);
    assert forall|f: int| 0 <= f < after.free_pages@.len() implies #[trigger] after.free_pages@[f]
        == if f < n {
        free[f]
    } else {
        own.blocks@[f - n].id
    } by {
        if f >= n {
            assert(own.page_ids()[f - n] == own.blocks@[f - n].id);
        }
    }
    assert forall|i: int| 0 <= i < updated.len() implies (#[trigger] updated[i]).wf()
        && updated[i].block_size == after.block_size by {
        if i != index {
            assert(updated[i] == sequences[i]);
        }
    }
    assert forall|i: int, k: int|
        0 <= i < updated.len() && 0 <= k < updated[i].blocks@.len() implies i != index
        && #[trigger] updated[i].blocks@[k] == sequences[i].blocks@[k] by {
    }
    assert forall|i: int, k: int, f: int|
        0 <= i < updated.len() && 0 <= k < updated[i].blocks@.len() && 0 <= f
            < after.free_pages@.len() implies (#[trigger] updated[i].blocks@[k]).id
        != #[trigger] after.free_pages@[f] by {
        assert(updated[i].blocks@[k] == sequences[i].blocks@[k]);
        if f < n {
            assert(after.free_pages@[f] == free[f]);
        } else {
            assert(after.free_pages@[f] == sequences[index].blocks@[f - n].id);
        }
    }
    assert forall|f: int, g: int| 0 <= f < g < after.free_pages@.len() implies
        #[trigger] after.free_pages@[f] != #[trigger] after.free_pages@[g] by {
        if g < n {
            assert(after.free_pages@[f] == free[f] && after.free_pages@[g] == free[g]);
        } else if f < n {
            assert(after.free_pages@[f] == free[f]);
            assert(after.free_pages@[g] == sequences[index].blocks@[g - n].id);
        } else {
            assert(after.free_pages@[f] == sequences[index].blocks@[f - n].id);
            assert(after.free_pages@[g] == sequences[index].blocks@[g - n].id);
        }
    }
    assert forall|f: int| 0 <= f < after.free_pages@.len() implies 1
        <= #[trigger] after.free_pages@[f] < after.next_page_id by {
        if f < n {
            assert(after.free_pages@[f] == free[f]);
        } else {
            assert(after.free_pages@[f] == sequences[index].blocks@[f - n].id);
        }
    }
}

/// Compacting all sequences leaves pages partitioned, numbered without gaps and none free.
pub proof fn law_compaction_partitions(
    sequences: Seq<PagedKvSequence>,
    after: PagedKvAllocator,
    renumbered: Seq<PagedKvSequence>,
)
    requires
        after.wf(),
        after.free_pages@.len() == 0,
        after.next_page_id == 1 + allocator::total_blocks(sequences),
        after.live_pages == allocator::total_blocks(sequences),
        allocator::total_blocks(sequences) < u64::MAX,
        renumbered.len() == sequences.len(),
        forall|i: int| 0 <= i < sequences.len() ==> (#[trigger] sequences[i]).block_size
            == after.block_size,
        forall|i: int| #![trigger renumbered[i]]
            0 <= i < sequences.len() ==> allocator::compacted(sequences, i, renumbered[i]),
    ensures
        pages_partitioned(after, renumbered),
{
    assert forall|i: int, k: int|
        0 <= i < renumbered.len() && 0 <= k < renumbered[i].blocks@.len() implies {
        &&& (#[trigger] renumbered[i].blocks@[k]).id == 1 + allocator::total_blocks(
            sequences.take(i),
        ) + k
        &&& renumbered[i].blocks@[k].id < after.next_page_id
        &&& renumbered[i].blocks@.len() == sequences[i].blocks@.len()
        &&& allocator::total_blocks(sequences.take(i)) >= 0
    } by {
        assert(allocator::compacted(sequences, i, renumbered[i]));
        assert(renumbered[i].page_ids()[k] == renumbered[i].blocks@[k].id);
        assert(renumbered[i].page_ids().len() == sequences[i].blocks@.len());
        assert(sequences.take(i + 1).drop_last() =~= sequences.take(i));
        allocator::lemma_total_blocks_prefix(sequences, i + 1);
        allocator::lemma_total_blocks_prefix(sequences, i);
    }
    assert forall|i: int| 0 <= i < renumbered.len() implies (#[trigger] renumbered[i]).wf()
        && renumbered[i].block_size == after.block_size && renumbered[i].blocks@.len()
        == sequences[i].blocks@.len() by {
        assert(allocator::compacted(sequences, i, renumbered[i]));
        assert(sequences[i].block_size == after.block_size);
        assert(renumbered[i].page_ids().len() == sequences[i].blocks@.len());
    }
    lemma_total_blocks_same(sequences, renumbered);
    assert forall|i: int, k: int, j: int, l: int|
        0 <= i < renumbered.len() && 0 <= k < renumbered[i].blocks@.len() && 0 <= j
            < renumbered.len() && 0 <= l < renumbered[j].blocks@.len() && (i != j || k
            != l) implies (#[trigger] renumbered[i].blocks@[k]).id != (
    #[trigger] renumbered[j].blocks@[l]).id by {
        if i < j {
            lemma_total_blocks_step(sequences, i, j);
        } else if j < i {
            lemma_total_blocks_step(sequences, j, i);
        }
    }
}

proof fn lemma_total_blocks_same(a: Seq<PagedKvSequence>, b: Seq<PagedKvSequence>)
    requires
        a.len() == b.len(),
        forall|i: int| 0 <= i < a.len() ==> (#[trigger] b[i]).blocks@.len() == a[i].blocks@.len(),
    ensures
        allocator::total_blocks(a) == allocator::total_blocks(b),
    decreases a.len(),
{
    if a.len() > 0 {
        assert forall|i: int| 0 <= i < a.drop_last().len() implies (
        #[trigger] b.drop_last()[i]).blocks@.len() == a.drop_last()[i].blocks@.len() by {
            assert(b[i].blocks@.len() == a[i].blocks@.len());
        }
        lemma_total_blocks_same(a.drop_last(), b.drop_last());
        assert(b[a.len() - 1].blocks@.len() == a[a.len() - 1].blocks@.len());
    }
}

proof fn lemma_total_blocks_step(sequences: Seq<PagedKvSequence>, i: int, j: int)
    requires
        0 <= i < j <= sequences.len(),
    ensures
        allocator::total_blocks(sequences.take(i)) + sequences[i].blocks@.len()
            <= allocator::total_blocks(sequences.take(j)),
{
    let head = sequences.take(j);
    assert(head.take(i + 1).drop_last() =~= sequences.take(i));
    assert(head.take(i + 1).last() == sequences[i]);
    allocator::lemma_total_blocks_prefix(head, i + 1);
}

/// With no page in use, forgetting the free list keeps pages partitioned.
pub proof fn law_idle_reset_keeps_partition(
    before: PagedKvAllocator,
    sequences: Seq<PagedKvSequence>,
    after: PagedKvAllocator,
)
    requires
        pages_partitioned(before, sequences),
        before.live_pages == 0,
        after.wf(),
        after.block_size == before.block_size,
        after.free_pages@.len() == 0,
        after.next_page_id == 1,
        after.live_pages == 0,
    ensures
        pages_partitioned(after, sequences),
        forall|i: int| 0 <= i < sequences.len() ==> (#[trigger] sequences[i]).blocks@.len() == 0,
{
    assert forall|i: int| 0 <= i < sequences.len() implies (#[trigger] sequences[i]).blocks@.len()
        == 0 by {
        allocator::lemma_total_blocks_prefix(sequences, i + 1);
        assert(sequences.take(i + 1).drop_last() =~= sequences.take(i));
        allocator::lemma_total_blocks_prefix(sequences, i);
    }
}

/// Different tokens, of one sequence or of two, are stored in different slots.
pub proof fn law_slots_disjoint(
    allocator: PagedKvAllocator,
    sequences: Seq<PagedKvSequence>,
    i: int,
    s: int,
    j: int,
    t: int,
)
    requires
        pages_partitioned(allocator, sequences),
        0 <= i < sequences.len(),
        0 <= j < sequences.len(),
        0 <= s < sequences[i].token_len,
        0 <= t < sequences[j].token_len,
        i != j || s != t,
    ensures
        sequences[i].slot(s) != sequences[j].slot(t),
{
    let size = allocator.block_size as int;
    arith::lemma_ceil_div(sequences[i].token_len as int, size);
    arith::lemma_ceil_div(sequences[j].token_len as int, size);
    assert(sequences[i].wf() && sequences[j].wf());
    vstd::arithmetic::div_mod::lemma_fundamental_div_mod(s, size);
    vstd::arithmetic::div_mod::lemma_fundamental_div_mod(t, size);
    vstd::arithmetic::div_mod::lemma_div_pos_is_pos(s, size);
    vstd::arithmetic::div_mod::lemma_div_pos_is_pos(t, size);
    let k = s / size;
    let l = t / size;
    if sequences[i].slot(s) == sequences[j].slot(t) {
        assert(sequences[i].blocks@[k].id == sequences[j].blocks@[l].id);
        assert(i == j && k == l);
        assert(s == t);
    }
}

/// Pages given back are handed out again before any new page is made.
pub proof fn law_released_pages_are_reused(
    before: PagedKvAllocator,
    released: PagedKvSequence,
    after: PagedKvAllocator,
    next: PagedKvSequence,
    token_len: usize,
)
    requires
        after.block_size == before.block_size,
        after.free_pages@ == before.free_pages@ + released.page_ids(),
        after.missing_pages(next, token_len as int) <= released.blocks@.len(),
    ensures
        after.reused_of(after.missing_pages(next, token_len as int)) == after.missing_pages(
            next,
            token_len as int,
        ),
        forall|n: int|
            0 <= n < after.missing_pages(next, token_len as int) ==> #[trigger] after.acquired_id(n)
                == released.blocks@[released.blocks@.len() - 1 - n].id,
{
    assert forall|n: int|
        0 <= n < after.missing_pages(next, token_len as int) implies #[trigger] after.acquired_id(n)
        == released.blocks@[released.blocks@.len() - 1 - n].id by {
        assert(released.page_ids()[released.blocks@.len() - 1 - n] == released.blocks@[
        released.blocks@.len() - 1 - n].id);
    }
}

proof fn lemma_total_blocks_remove(sequences: Seq<PagedKvSequence>, index: int)
    requires
        0 <= index < sequences.len(),
    ensures
        allocator::total_blocks(sequences.remove(index)) == allocator::total_blocks(sequences)
            - sequences[index].blocks@.len(),
    decreases sequences.len(),
{
    let rest = sequences.remove(index);
    if index == sequences.len() - 1 {
        assert(rest =~= sequences.drop_last());
    } else {
        assert(rest.drop_last() =~= sequences.drop_last().remove(index));
        lemma_total_blocks_remove(sequences.drop_last(), index);
        assert(rest.last() == sequences.last());
    }
}

/// A sequence without blocks can go: pages stay partitioned over the rest.
pub proof fn law_empty_sequence_can_go(
    allocator: PagedKvAllocator,
    sequences: Seq<PagedKvSequence>,
    index: int,
)
    requires
        pages_partitioned(allocator, sequences),
        0 <= index < sequences.len(),
        sequences[index].blocks@.len() == 0,
    ensures
        pages_partitioned(allocator, sequences.remove(index)),
{
    let rest = sequences.remove(index);
    lemma_total_blocks_remove(sequences, index);
    let place = |i: int|
        if i < index {
            i
        } else {
            i + 1
        };
    assert forall|i: int| 0 <= i < rest.len() implies (#[trigger] rest[i]).wf()
        && rest[i].block_size == allocator.block_size by {
        assert(rest[i] == sequences[place(i)]);
    }
    assert forall|i: int, k: int|
        0 <= i < rest.len() && 0 <= k < rest[i].blocks@.len() implies 1 <= (
    #[trigger] rest[i].blocks@[k]).id < allocator.next_page_id by {
        assert(rest[i].blocks@[k] == sequences[place(i)].blocks@[k]);
    }
    assert forall|i: int, k: int, j: int, l: int|
        0 <= i < rest.len() && 0 <= k < rest[i].blocks@.len() && 0 <= j < rest.len() && 0 <= l
            < rest[j].blocks@.len() && (i != j || k != l) implies (
    #[trigger] rest[i].blocks@[k]).id != (#[trigger] rest[j].blocks@[l]).id by {
        assert(rest[i].blocks@[k] == sequences[place(i)].blocks@[k]);
        assert(rest[j].blocks@[l] == sequences[place(j)].blocks@[l]);
    }
    assert forall|i: int, k: int, f: int|
        0 <= i < rest.len() && 0 <= k < rest[i].blocks@.len() && 0 <= f
            < allocator.free_pages@.len() implies (#[trigger] rest[i].blocks@[k]).id
        != #[trigger] allocator.free_pages@[f] by {
        assert(rest[i].blocks@[k] == sequences[place(i)].blocks@[k]);
    }
}

/// A sequence without blocks can come: pages stay partitioned.
pub proof fn law_empty_sequence_can_come(
    allocator: PagedKvAllocator,
    sequences: Seq<PagedKvSequence>,
    fresh: PagedKvSequence,
)
    requires
        pages_partitioned(allocator, sequences),
        fresh.wf(),
        fresh.block_size == allocator.block_size,
        fresh.blocks@.len() == 0,
    ensures
        pages_partitioned(allocator, sequences.push(fresh)),
{
    let all = sequences.push(fresh);
    assert(all.drop_last() =~= sequences);
    assert forall|i: int| 0 <= i < all.len() implies (#[trigger] all[i]).wf()
        && all[i].block_size == allocator.block_size by {
        if i < sequences.len() {
            assert(all[i] == sequences[i]);
        }
    }
    assert forall|i: int, k: int| 0 <= i < all.len() && 0 <= k < all[i].blocks@.len() implies 1 <= (
    #[trigger] all[i].blocks@[k]).id < allocator.next_page_id by {
        assert(all[i].blocks@[k] == sequences[i].blocks@[k]);
    }
    assert forall|i: int, k: int, j: int, l: int|
        0 <= i < all.len() && 0 <= k < all[i].blocks@.len() && 0 <= j < all.len() && 0 <= l
            < all[j].blocks@.len() && (i != j || k != l) implies (#[trigger] all[i].blocks@[k]).id
        != (#[trigger] all[j].blocks@[l]).id by {
        assert(all[i].blocks@[k] == sequences[i].blocks@[k]);
        assert(all[j].blocks@[l] == sequences[j].blocks@[l]);
    }
    assert forall|i: int, k: int, f: int|
        0 <= i < all.len() && 0 <= k < all[i].blocks@.len() && 0 <= f
            < allocator.free_pages@.len() implies (#[trigger] all[i].blocks@[k]).id
        != #[trigger] allocator.free_pages@[f] by {
        assert(all[i].blocks@[k] == sequences[i].blocks@[k]);
    }
}

/// The sequence holds no more blocks than its tokens need.
pub open spec fn tight(sequence: PagedKvSequence) -> bool {
    sequence.blocks@.len() == arith::ceil_div(
        sequence.token_len as int,
        sequence.block_size as int,
    )
}

/// A sequence that only grew holds no more blocks than its tokens need: an empty one holds none,
/// and growing takes just the pages that are missing. One that is laid out for another block size
/// starts over.
pub proof fn law_growth_takes_what_is_needed(
    allocator: PagedKvAllocator,
    before: PagedKvSequence,
    token_len: usize,
    after: PagedKvSequence,
)
    requires
        allocator.wf(),
        before.wf(),
        before.blocks@.len() == 0 && before.token_len == 0 || tight(before),
        before.token_len <= token_len || before.block_size != allocator.block_size,
        allocator.grown(before, token_len, after),
    ensures
        tight(after),
        after.blocks@.len() * after.block_size - after.token_len < after.block_size,
{
    let size = allocator.block_size as int;
    let kept = before.retargeted(allocator.block_size).1;
    let missing = allocator.missing_pages(before, token_len as int);
    assert(after.page_ids().len() == kept.len() + missing);
    assert(after.blocks@.len() == kept.len() + missing);
    arith::lemma_ceil_div(token_len as int, size);
    arith::lemma_ceil_div(0, size);
    let need = arith::ceil_div(token_len as int, size);
    if before.block_size == allocator.block_size && before.token_len > 0 {
        arith::lemma_ceil_div(before.token_len as int, size);
        let have = arith::ceil_div(before.token_len as int, size);
        assert(have <= need) by (nonlinear_arith)
            requires
                (have - 1) * size < before.token_len,
                before.token_len <= token_len,
                token_len <= need * size,
                size > 0,
        ;
    }
    assert(need * size - token_len < size) by (nonlinear_arith)
        requires
            token_len > 0 ==> (need - 1) * size < token_len,
            token_len == 0 ==> need == 0,
            size > 0,
            token_len >= 0,
    ;
}

} // verus!
