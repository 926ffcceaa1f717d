//! Hands pages to sequences and takes them back.
use super::layout::PagedKvLayout;
use super::sequence::{self, PagedKvBlock, PagedKvSequence};
use crate::arith;
use vstd::prelude::*;

verus! {

/// Pages that one growth step took, by origin.
#[derive(Debug, Clone, Copy, PartialEq, Eq, Structural)]
pub struct PagedKvUpdate {
    pub allocated_pages: u64,
    pub reused_pages: u64,
}

impl Default for PagedKvUpdate {
    fn default() -> (result: Self)
        ensures
            result.allocated_pages == 0,
            result.reused_pages == 0,
    {
        PagedKvUpdate { allocated_pages: 0, reused_pages: 0 }
    }
}

/// What a compaction did.
#[derive(Debug, Clone, Copy, PartialEq, Eq, Structural)]
pub struct PagedKvCompaction {
    pub live_pages: u64,
    pub moved_pages: u64,
    pub dropped_free_pages: u64,
}

impl Default for PagedKvCompaction {
    fn default() -> (result: Self)
        ensures
            result.live_pages == 0,
            result.moved_pages == 0,
            result.dropped_free_pages == 0,
    {
        PagedKvCompaction { live_pages: 0, moved_pages: 0, dropped_free_pages: 0 }
    }
}

/// Allocator counters at one moment.
#[derive(Debug, Clone, Copy, PartialEq, Eq, Structural)]
pub struct PagedKvAllocatorSnapshot {
    pub block_size: usize,
    pub live_pages: u64,
    pub free_pages: u64,
    pub total_alloc_pages: u64,
    pub total_reused_pages: u64,
    pub total_freed_pages: u64,
    pub reserved_bytes: u64,
}

/// Source of page ids. Ids start at 1; returned ids are handed out again, last in first out.
pub struct PagedKvAllocator {
    pub block_size: usize,
    pub layout: PagedKvLayout,
    pub next_page_id: u64,
    pub free_pages: Vec<u64>,
    pub live_pages: u64,
    pub total_alloc_pages: u64,
    pub total_reused_pages: u64,
    pub total_freed_pages: u64,
}

/// Blocks of all sequences together.
pub open spec fn total_blocks(sequences: Seq<PagedKvSequence>) -> int
    decreases sequences.len(),
{
    if sequences.len() == 0 {
        0
    } else {
        total_blocks(sequences.drop_last()) + sequences.last().blocks@.len()
    }
}

/// How many of `ids` differ from the number that counting up from `first` gives them.
pub open spec fn moved_count(ids: Seq<u64>, first: int) -> int
    decreases ids.len(),
{
    if ids.len() == 0 {
        0
    } else {
        moved_count(ids.drop_last(), first) + if ids.last() != first + ids.len() - 1 {
            1int
        } else {
            0
        }
    }
}

/// Pages whose id changes when `sequences` are numbered from 1.
pub open spec fn total_moved(sequences: Seq<PagedKvSequence>) -> int
    decreases sequences.len(),
{
    if sequences.len() == 0 {
        0
    } else {
        total_moved(sequences.drop_last()) + moved_count(
            sequences.last().page_ids(),
            1 + total_blocks(sequences.drop_last()),
        )
    }
}

/// `after` is sequence `index` of `before` renumbered by a compaction of all of them.
pub open spec fn compacted(
    before: Seq<PagedKvSequence>,
    index: int,
    after: PagedKvSequence,
) -> bool {
    let own = before[index];
    &&& after.wf()
    &&& after.block_size == own.block_size
    &&& after.token_len == own.token_len
    &&& after.gpu_resident_token_len == 0
    &&& after.page_ids() == Seq::new(
        own.blocks@.len(),
        |k: int| (1 + total_blocks(before.take(index)) + k) as u64,
    )
}

/// Fewer sequences have no more blocks.
pub proof fn lemma_total_blocks_prefix(sequences: Seq<PagedKvSequence>, count: int)
    requires
        0 <= count <= sequences.len(),
    ensures
        0 <= total_blocks(sequences.take(count)) <= total_blocks(sequences),
    decreases sequences.len(),
{
    if sequences.len() == 0 {
        assert(sequences.take(count) =~= sequences);
    } else if count == sequences.len() {
        assert(sequences.take(count) =~= sequences);
        lemma_total_blocks_prefix(sequences.drop_last(), sequences.len() - 1);
        assert(sequences.drop_last().take(sequences.len() - 1) =~= sequences.drop_last());
    } else {
        assert(sequences.drop_last().take(count) =~= sequences.take(count));
        lemma_total_blocks_prefix(sequences.drop_last(), count);
    }
}

/// A balanced allocator with spare counts has room.
pub proof fn lemma_spare_is_room(allocator: PagedKvAllocator, pages: int)
    requires
        allocator.balanced(),
        allocator.spare(pages),
        pages >= 0,
    ensures
        allocator.room_for(pages),
{
}

impl PagedKvAllocator {
    pub open spec fn wf(&self) -> bool {
        &&& self.block_size > 0
        &&& self.next_page_id >= 1
    }

    /// Every page taken is still in use or was given back, and ids were counted.
    pub open spec fn balanced(&self) -> bool {
        &&& self.live_pages + self.total_freed_pages == self.total_alloc_pages
            + self.total_reused_pages
        &&& self.next_page_id <= self.total_alloc_pages + 1
    }

    /// Pages on the free list and pages taken from it were all given back before.
    pub open spec fn recycled(&self) -> bool {
        self.free_pages@.len() + self.total_reused_pages <= self.total_freed_pages
    }

    /// The lifetime counters can take `pages` more pages.
    pub open spec fn spare(&self, pages: int) -> bool {
        self.total_alloc_pages + self.total_reused_pages + pages < u64::MAX
    }

    /// The counters can take `pages` more pages.
    pub open spec fn room_for(&self, pages: int) -> bool {
        &&& self.next_page_id + pages <= u64::MAX
        &&& self.live_pages + pages <= u64::MAX
        &&& self.total_alloc_pages + pages <= u64::MAX
        &&& self.total_reused_pages + pages <= u64::MAX
    }

    /// Configuration and lifetime totals are those of `before`.
    pub open spec fn same_totals(&self, before: Self) -> bool {
        &&& self.block_size == before.block_size
        &&& self.layout == before.layout
        &&& self.total_alloc_pages == before.total_alloc_pages
        &&& self.total_reused_pages == before.total_reused_pages
        &&& self.total_freed_pages == before.total_freed_pages
    }

    /// How many of `pages` acquisitions are served from the free list.
    pub open spec fn reused_of(&self, pages: int) -> int {
        if pages <= self.free_pages@.len() {
            pages
        } else {
            self.free_pages@.len() as int
        }
    }

    /// The id that acquisition number `n`, counted from 0, gets.
    pub open spec fn acquired_id(&self, n: int) -> u64 {
        if n < self.free_pages@.len() {
            self.free_pages@[self.free_pages@.len() - 1 - n]
        } else {
            (self.next_page_id + (n - self.free_pages@.len())) as u64
        }
    }

    /// `self` is `before` after `pages` acquisitions.
    pub open spec fn acquired_from(&self, before: Self, pages: int) -> bool {
        &&& self.block_size == before.block_size
        &&& self.layout == before.layout
        &&& self.free_pages@ == before.free_pages@.take(
            before.free_pages@.len() - before.reused_of(pages),
        )
        &&& self.next_page_id == before.next_page_id + pages - before.reused_of(pages)
        &&& self.live_pages == before.live_pages + pages
        &&& self.total_alloc_pages == before.total_alloc_pages + pages - before.reused_of(pages)
        &&& self.total_reused_pages == before.total_reused_pages + before.reused_of(pages)
        &&& self.total_freed_pages == before.total_freed_pages
    }

    /// Pages that `sequence` lacks for `token_len` tokens.
    pub open spec fn missing_pages(&self, sequence: PagedKvSequence, token_len: int) -> int {
        let have = sequence.retargeted(self.block_size).1.len() as int;
        let need = arith::ceil_div(token_len, self.block_size as int);
        if need > have {
            need - have
        } else {
            0
        }
    }

    /// `after` is `before` grown or cut to `token_len` tokens by this allocator.
    pub open spec fn grown(
        &self,
        before: PagedKvSequence,
        token_len: usize,
        after: PagedKvSequence,
    ) -> bool {
        let kept = before.retargeted(self.block_size).1;
        let resident = before.retargeted(self.block_size).0;
        let missing = self.missing_pages(before, token_len as int);
        &&& after.wf()
        &&& after.block_size == self.block_size
        &&& after.token_len == token_len
        &&& after.gpu_resident_token_len == if resident <= token_len {
            resident
        } else {
            token_len
        }
        &&& after.page_ids() == sequence::block_ids(kept) + Seq::new(
            missing as nat,
            |n: int| self.acquired_id(n),
        )
    }

    pub fn new(block_size: usize, layout: PagedKvLayout) -> (result: Self)
        ensures
            result.wf(),
            result.block_size == if block_size == 0 {
                1
            } else {
                block_size
            },
            result.layout == layout,
            result.next_page_id == 1,
            result.free_pages@.len() == 0,
            result.live_pages == 0,
            result.total_alloc_pages == 0,
            result.total_reused_pages == 0,
            result.total_freed_pages == 0,
            result.balanced(),
            result.recycled(),
    {
        PagedKvAllocator {
            block_size: if block_size == 0 {
                1
            } else {
                block_size
            },
            layout,
            next_page_id: 1,
            free_pages: Vec::new(),
            live_pages: 0,
            total_alloc_pages: 0,
            total_reused_pages: 0,
            total_freed_pages: 0,
        }
    }

    pub fn block_size(&self) -> (result: usize)
        ensures
            result == self.block_size,
    {
        self.block_size
    }

    pub fn layout(&self) -> (result: PagedKvLayout)
        ensures
            result == self.layout,
    {
        self.layout
    }

    pub fn bytes_per_block(&self) -> (result: u64)
        requires
            self.layout.block_bytes_fit(self.block_size as int),
        ensures
            result == self.layout.block_bytes(self.block_size as int),
    {
        self.layout.bytes_per_block(self.block_size)
    }

    /// Gives `sequence` the pages that `token_len` tokens need and sets its length.
    ///
    /// A sequence laid out for another block size starts over. Pages beyond the
    /// need are kept.
    pub fn ensure_token_len(
        &mut self,
        sequence: &mut PagedKvSequence,
        token_len: usize,
    ) -> (update: PagedKvUpdate)
        requires
            old(self).wf(),
            old(sequence).wf(),
            old(self).room_for(old(self).missing_pages(*old(sequence), token_len as int)),
        ensures
            final(self).wf(),
            final(self).acquired_from(
                *old(self),
                old(self).missing_pages(*old(sequence), token_len as int),
            ),
            old(self).grown(*old(sequence), token_len, *final(sequence)),
            update.reused_pages == old(self).reused_of(
                old(self).missing_pages(*old(sequence), token_len as int),
            ),
            update.allocated_pages + update.reused_pages == old(self).missing_pages(
                *old(sequence),
                token_len as int,
            ),
            old(self).balanced() ==> final(self).balanced(),
            old(self).recycled() ==> final(self).recycled(),
    {
        let ghost a0 = *self;
        let ghost s0 = *sequence;
        let ghost kept = s0.retargeted(a0.block_size).1;
        let ghost missing = a0.missing_pages(s0, token_len as int);
        if sequence.block_size != self.block_size {
            sequence.retarget(self.block_size);
        }
        let required_pages: usize = arith::div_ceil(token_len, self.block_size);
        proof {
            arith::lemma_ceil_div(token_len as int, self.block_size as int);
        }
        let mut update = PagedKvUpdate::default();
        let ghost mut taken: int = 0;
        assert(a0.free_pages@.take(a0.free_pages@.len() as int) =~= a0.free_pages@);
        while sequence.blocks.len() < required_pages
            invariant
                a0.wf(),
                a0.room_for(missing),
                missing == a0.missing_pages(s0, token_len as int),
                kept == s0.retargeted(a0.block_size).1,
                required_pages == arith::ceil_div(token_len as int, a0.block_size as int),
                (required_pages - 1) * a0.block_size <= usize::MAX || required_pages == 0,
                0 <= taken <= missing,
                self.acquired_from(a0, taken),
                self.wf(),
                sequence.block_size == a0.block_size,
                sequence.gpu_resident_token_len == s0.retargeted(a0.block_size).0,
                sequence.blocks@.len() == kept.len() + taken,
                sequence::block_ids(sequence.blocks@) =~= sequence::block_ids(kept) + Seq::new(
                    taken as nat,
                    |n: int| a0.acquired_id(n),
                ),
                update.reused_pages == a0.reused_of(taken),
                update.allocated_pages + update.reused_pages == taken,
            decreases required_pages - sequence.blocks@.len(),
        {
            let ghost before = sequence.blocks@;
            let idx: usize = sequence.blocks.len();
            let (id, reused) = self.acquire_page();
            assert(self.free_pages@ =~= a0.free_pages@.take(
                a0.free_pages@.len() - a0.reused_of(taken + 1),
            ));
            assert(id == a0.acquired_id(taken));
            assert(idx * a0.block_size <= (required_pages - 1) * a0.block_size) by (nonlinear_arith)
                requires
                    idx <= required_pages - 1,
                    a0.block_size > 0,
            ;
            sequence.blocks.push(PagedKvBlock { id, start_token: idx * self.block_size, len: 0 });
            if reused {
                update.reused_pages = update.reused_pages + 1;
            } else {
                update.allocated_pages = update.allocated_pages + 1;
            }
            assert(sequence::block_ids(sequence.blocks@) =~= sequence::block_ids(before).push(id));
            proof {
                taken = taken + 1;
            }
        }
        assert(taken == missing);
        sequence.token_len = token_len;
        if sequence.gpu_resident_token_len > token_len {
            sequence.gpu_resident_token_len = token_len;
        }
        proof {
            if sequence.blocks@.len() > 0 {
                if missing > 0 {
                    assert(sequence.blocks@.len() == required_pages);
                } else {
                    let last = kept.len() - 1;
                    assert(kept[last].start_token == last * a0.block_size);
                }
            }
        }
        sequence.refresh_block_lengths();
        update
    }

    /// Takes all pages of `sequence` back.
    pub fn release_sequence(&mut self, sequence: &mut PagedKvSequence) -> (released: u64)
        requires
            old(self).wf(),
            old(sequence).wf(),
            old(self).total_freed_pages + old(sequence).blocks@.len() <= u64::MAX,
        ensures
            final(self).wf(),
            final(sequence).wf(),
            released == old(sequence).blocks@.len(),
            final(sequence).block_size == old(sequence).block_size,
            final(sequence).token_len == 0,
            final(sequence).gpu_resident_token_len == 0,
            final(sequence).blocks@.len() == 0,
            final(self).free_pages@ == old(self).free_pages@ + old(sequence).page_ids(),
            final(self).live_pages == if old(self).live_pages >= released {
                old(self).live_pages - released
            } else {
                0
            },
            final(self).total_freed_pages == old(self).total_freed_pages + released,
            final(self).block_size == old(self).block_size,
            final(self).layout == old(self).layout,
            final(self).next_page_id == old(self).next_page_id,
            final(self).total_alloc_pages == old(self).total_alloc_pages,
            final(self).total_reused_pages == old(self).total_reused_pages,
            old(self).balanced() && released <= old(self).live_pages ==> final(self).balanced(),
            old(self).recycled() ==> final(self).recycled(),
    {
        let released: u64 = sequence.blocks.len() as u64;
        let mut i: usize = 0;
        while i < sequence.blocks.len()
            invariant
                i <= sequence.blocks@.len(),
                *sequence == *old(sequence),
                self.free_pages@ =~= old(self).free_pages@ + old(sequence).page_ids().take(
                    i as int,
                ),
                self.block_size == old(self).block_size,
                self.layout == old(self).layout,
                self.next_page_id == old(self).next_page_id,
                self.live_pages == old(self).live_pages,
                self.total_alloc_pages == old(self).total_alloc_pages,
                self.total_reused_pages == old(self).total_reused_pages,
                self.total_freed_pages == old(self).total_freed_pages,
            decreases sequence.blocks@.len() - i,
        {
            self.free_pages.push(sequence.blocks[i].id);
            i = i + 1;
        }
        assert(old(sequence).page_ids().take(i as int) =~= old(sequence).page_ids());
        sequence.blocks.clear();
        sequence.token_len = 0;
        sequence.gpu_resident_token_len = 0;
        self.live_pages = self.live_pages.saturating_sub(released);
        self.total_freed_pages = self.total_freed_pages + released;
        proof {
            arith::lemma_ceil_div(0, sequence.block_size as int);
        }
        released
    }

    /// Forgets the free list and restarts the ids, unless a page is still in use.
    pub fn reset_when_idle(&mut self) -> (dropped: u64)
        requires
            old(self).wf(),
        ensures
            final(self).wf(),
            old(self).live_pages != 0 ==> dropped == 0 && *final(self) == *old(self),
            old(self).live_pages == 0 ==> {
                &&& dropped == old(self).free_pages@.len()
                &&& final(self).free_pages@.len() == 0
                &&& final(self).next_page_id == 1
                &&& final(self).block_size == old(self).block_size
                &&& final(self).layout == old(self).layout
                &&& final(self).live_pages == 0
                &&& final(self).total_alloc_pages == old(self).total_alloc_pages
                &&& final(self).total_reused_pages == old(self).total_reused_pages
                &&& final(self).total_freed_pages == old(self).total_freed_pages
            },
            old(self).balanced() ==> final(self).balanced(),
            old(self).recycled() ==> final(self).recycled(),
    {
        if self.live_pages != 0 {
            return 0;
        }
        let dropped: u64 = self.free_pages.len() as u64;
        self.free_pages.clear();
        self.next_page_id = 1;
        dropped
    }

    /// Starts a compaction: no page is handed out or free, and ids start over.
    pub fn begin_compaction(&mut self) -> (report: PagedKvCompaction)
        requires
            old(self).wf(),
        ensures
            final(self).wf(),
            report.live_pages == 0,
            report.moved_pages == 0,
            report.dropped_free_pages == old(self).free_pages@.len(),
            final(self).free_pages@.len() == 0,
            final(self).next_page_id == 1,
            final(self).live_pages == 0,
            final(self).same_totals(*old(self)),
    {
        let dropped_free_pages: u64 = self.free_pages.len() as u64;
        self.free_pages.clear();
        self.next_page_id = 1;
        self.live_pages = 0;
        PagedKvCompaction { live_pages: 0, moved_pages: 0, dropped_free_pages }
    }

    /// Renumbers the pages of `sequence` with the next ids of a running compaction.
    ///
    /// Nothing of the sequence counts as resident afterwards: its pages moved.
    pub fn compact_sequence(
        &mut self,
        sequence: &mut PagedKvSequence,
        report: &mut PagedKvCompaction,
    )
        requires
            old(self).wf(),
            old(sequence).wf(),
            old(self).next_page_id + old(sequence).blocks@.len() <= u64::MAX,
            old(self).live_pages == old(report).live_pages,
            old(self).live_pages + old(sequence).blocks@.len() <= u64::MAX,
            old(report).moved_pages <= old(report).live_pages,
        ensures
            final(self).wf(),
            final(sequence).wf(),
            final(sequence).block_size == old(sequence).block_size,
            final(sequence).token_len == old(sequence).token_len,
            final(sequence).gpu_resident_token_len == 0,
            final(sequence).page_ids() == Seq::new(
                old(sequence).blocks@.len(),
                |k: int| (old(self).next_page_id + k) as u64,
            ),
            final(self).free_pages@ == old(self).free_pages@,
            final(self).next_page_id == old(self).next_page_id + old(sequence).blocks@.len(),
            final(self).live_pages == old(self).live_pages + old(sequence).blocks@.len(),
            final(self).same_totals(*old(self)),
            final(report).dropped_free_pages == old(report).dropped_free_pages,
            final(report).live_pages == final(self).live_pages,
            final(report).moved_pages == old(report).moved_pages + moved_count(
                old(sequence).page_ids(),
                old(self).next_page_id as int,
            ),
            final(report).moved_pages <= final(report).live_pages,
    {
        let ghost first = self.next_page_id;
        let ghost before = sequence.blocks@;
        let ghost ids = sequence.page_ids();
        let count: usize = sequence.blocks.len();
        let mut k: usize = 0;
        while k < count
            invariant
                k <= count,
                count == before.len(),
                ids == sequence::block_ids(before),
                first == old(self).next_page_id,
                first >= 1,
                first + count <= u64::MAX,
                old(report).live_pages + count <= u64::MAX,
                old(report).live_pages == old(self).live_pages,
                old(report).moved_pages <= old(report).live_pages,
                sequence.blocks@.len() == count,
                sequence.block_size == old(sequence).block_size,
                sequence.token_len == old(sequence).token_len,
                forall|i: int| 0 <= i < k ==> (#[trigger] sequence.blocks@[i]).id == first + i,
                forall|i: int| k <= i < count ==> #[trigger] sequence.blocks@[i] == before[i],
                self.next_page_id == first + k,
                self.live_pages == old(self).live_pages + k,
                self.free_pages@ == old(self).free_pages@,
                self.same_totals(*old(self)),
                report.live_pages == self.live_pages,
                report.dropped_free_pages == old(report).dropped_free_pages,
                report.moved_pages == old(report).moved_pages + moved_count(
                    ids.take(k as int),
                    first as int,
                ),
                report.moved_pages <= report.live_pages,
            decreases count - k,
        {
            let id: u64 = sequence.blocks[k].id;
            assert(ids.take(k + 1).drop_last() =~= ids.take(k as int));
            assert(ids.take(k + 1).last() == id);
            if id != self.next_page_id {
                report.moved_pages = report.moved_pages + 1;
            }
            let block: PagedKvBlock = sequence.blocks[k];
            sequence.blocks.set(
                k,
                PagedKvBlock { id: self.next_page_id, start_token: block.start_token, len: block.len },
            );
            self.next_page_id = self.next_page_id + 1;
            self.live_pages = self.live_pages + 1;
            report.live_pages = report.live_pages + 1;
            k = k + 1;
        }
        assert(ids.take(k as int) =~= ids);
        sequence.gpu_resident_token_len = 0;
        proof {
            if count > 0 {
                assert(before[count - 1].start_token == (count - 1) * sequence.block_size);
            }
        }
        let ghost numbered = sequence.blocks@;
        sequence.refresh_block_lengths();
        assert(sequence.page_ids() =~= Seq::new(count as nat, |j: int| (first + j) as u64)) by {
            assert(sequence.page_ids() == sequence::block_ids(numbered));
        }
    }

    /// Renumbers the pages of all `sequences` from 1, in order, and drops the free list.
    pub fn compact_sequences(&mut self, sequences: &mut Vec<PagedKvSequence>) -> (report:
        PagedKvCompaction)
        requires
            old(self).wf(),
            forall|i: int| 0 <= i < old(sequences)@.len() ==> (#[trigger] old(sequences)@[i]).wf(),
            total_blocks(old(sequences)@) < u64::MAX,
        ensures
            final(self).wf(),
            final(self).free_pages@.len() == 0,
            final(self).next_page_id == 1 + total_blocks(old(sequences)@),
            final(self).live_pages == total_blocks(old(sequences)@),
            final(self).same_totals(*old(self)),
            report.live_pages == total_blocks(old(sequences)@),
            report.dropped_free_pages == old(self).free_pages@.len(),
            report.moved_pages == total_moved(old(sequences)@),
            old(self).recycled() ==> final(self).recycled(),
            final(sequences)@.len() == old(sequences)@.len(),
            forall|i: int| #![trigger final(sequences)@[i]]
                0 <= i < old(sequences)@.len() ==> compacted(
                    old(sequences)@,
                    i,
                    final(sequences)@[i],
                ),
    {
        let ghost before = sequences@;
        let mut report = self.begin_compaction();
        let mut i: usize = 0;
        while i < sequences.len()
            invariant
                i <= sequences@.len(),
                sequences@.len() == before.len(),
                before == old(sequences)@,
                forall|j: int| 0 <= j < before.len() ==> (#[trigger] before[j]).wf(),
                total_blocks(before) < u64::MAX,
                forall|j: int| i <= j < before.len() ==> #[trigger] sequences@[j] == before[j],
                forall|j: int| #![trigger sequences@[j]]
                    0 <= j < i ==> compacted(before, j, sequences@[j]),
                self.wf(),
                self.free_pages@.len() == 0,
                self.next_page_id == 1 + total_blocks(before.take(i as int)),
                self.live_pages == total_blocks(before.take(i as int)),
                self.same_totals(*old(self)),
                report.live_pages == self.live_pages,
                report.dropped_free_pages == old(self).free_pages@.len(),
                report.moved_pages == total_moved(before.take(i as int)),
                report.moved_pages <= report.live_pages,
            decreases sequences@.len() - i,
        {
            assert(before.take(i + 1).drop_last() =~= before.take(i as int));
            assert(before.take(i + 1).last() == before[i as int]);
            proof {
                lemma_total_blocks_prefix(before, i + 1);
            }
            assert(sequences@[i as int] == before[i as int]);
            let ghost held = sequences@;
            let sequence: &mut PagedKvSequence = &mut sequences[i];
            self.compact_sequence(sequence, &mut report);
            assert(forall|j: int| 0 <= j < held.len() && j != i ==> sequences@[j] == held[j]);
            i = i + 1;
        }
        assert(before.take(i as int) =~= before);
        report
    }

    pub fn snapshot(&self) -> (result: PagedKvAllocatorSnapshot)
        requires
            self.layout.block_bytes_fit(self.block_size as int),
            self.live_pages * self.layout.block_bytes(self.block_size as int) <= u64::MAX,
        ensures
            result.block_size == self.block_size,
            result.live_pages == self.live_pages,
            result.free_pages == self.free_pages@.len(),
            result.total_alloc_pages == self.total_alloc_pages,
            result.total_reused_pages == self.total_reused_pages,
            result.total_freed_pages == self.total_freed_pages,
            result.reserved_bytes == self.live_pages * self.layout.block_bytes(
                self.block_size as int,
            ),
            self.balanced() ==> result.live_pages + result.total_freed_pages
                == result.total_alloc_pages + result.total_reused_pages,
            self.recycled() ==> result.free_pages + result.total_reused_pages
                <= result.total_freed_pages,
    {
        let bytes: u64 = self.bytes_per_block();
        PagedKvAllocatorSnapshot {
            block_size: self.block_size,
            live_pages: self.live_pages,
            free_pages: self.free_pages.len() as u64,
            total_alloc_pages: self.total_alloc_pages,
            total_reused_pages: self.total_reused_pages,
            total_freed_pages: self.total_freed_pages,
            reserved_bytes: self.live_pages * bytes,
        }
    }

    /// The next page: the one returned last, or a new one.
    fn acquire_page(&mut self) -> (result: (u64, bool))
        requires
            old(self).wf(),
            old(self).room_for(1),
        ensures
            final(self).wf(),
            final(self).acquired_from(*old(self), 1),
            result.0 == old(self).acquired_id(0),
            result.1 == (old(self).free_pages@.len() > 0),
    {
        match self.free_pages.pop() {
            Some(id) => {
                assert(self.free_pages@ =~= old(self).free_pages@.take(
                    old(self).free_pages@.len() - 1,
                ));
                self.live_pages = self.live_pages + 1;
                self.total_reused_pages = self.total_reused_pages + 1;
                (id, true)
            },
            None => {
                assert(self.free_pages@ =~= old(self).free_pages@.take(0));
                let id: u64 = self.next_page_id;
                self.next_page_id = self.next_page_id + 1;
                self.live_pages = self.live_pages + 1;
                self.total_alloc_pages = self.total_alloc_pages + 1;
                (id, false)
            },
        }
    }
}

proof fn lemma_counted_moves_nothing(ids: Seq<u64>, first: int)
    requires
        forall|k: int| 0 <= k < ids.len() ==> #[trigger] ids[k] == first + k,
    ensures
        moved_count(ids, first) == 0,
    decreases ids.len(),
{
    if ids.len() > 0 {
        lemma_counted_moves_nothing(ids.drop_last(), first);
        assert(ids[ids.len() - 1] == first + ids.len() - 1);
    }
}

proof fn lemma_compacted_stays(before: Seq<PagedKvSequence>, after: Seq<PagedKvSequence>, count: int)
    requires
        0 <= count <= before.len(),
        after.len() == before.len(),
        total_blocks(before) < u64::MAX,
        forall|i: int| #![trigger after[i]] 0 <= i < before.len() ==> compacted(before, i, after[i]),
    ensures
        total_blocks(after.take(count)) == total_blocks(before.take(count)),
        total_moved(after.take(count)) == 0,
    decreases count,
{
    if count > 0 {
        let last = count - 1;
        lemma_compacted_stays(before, after, last);
        assert(after.take(count).drop_last() =~= after.take(last));
        assert(before.take(count).drop_last() =~= before.take(last));
        assert(after.take(count).last() == after[last]);
        assert(before.take(count).last() == before[last]);
        assert(compacted(before, last, after[last]));
        let ids = after[last].page_ids();
        assert(ids.len() == before[last].blocks@.len());
        lemma_total_blocks_prefix(before, count);
        lemma_total_blocks_prefix(before, last);
        lemma_counted_moves_nothing(ids, 1 + total_blocks(before.take(last)));
    }
}

/// Compacting what was just compacted moves no page and drops none. `after` is what the first
/// compaction made of `before`, `again` what the second made of `after`, and `left` the allocator
/// between the two.
pub proof fn law_second_compaction_is_idle(
    before: Seq<PagedKvSequence>,
    after: Seq<PagedKvSequence>,
    again: Seq<PagedKvSequence>,
    left: PagedKvAllocator,
    report: PagedKvCompaction,
)
    requires
        total_blocks(before) < u64::MAX,
        after.len() == before.len(),
        forall|i: int| #![trigger after[i]] 0 <= i < before.len() ==> compacted(before, i, after[i]),
        left.free_pages@.len() == 0,
        again.len() == after.len(),
        forall|i: int| #![trigger again[i]] 0 <= i < after.len() ==> compacted(after, i, again[i]),
        report.moved_pages == total_moved(after),
        report.dropped_free_pages == left.free_pages@.len(),
        report.live_pages == total_blocks(after),
    ensures
        report.moved_pages == 0,
        report.dropped_free_pages == 0,
        report.live_pages == total_blocks(before),
        forall|i: int| #![trigger again[i]]
            0 <= i < again.len() ==> again[i].page_ids() == after[i].page_ids()
                && again[i].token_len == before[i].token_len,
{
    lemma_compacted_stays(before, after, before.len() as int);
    assert(after.take(before.len() as int) =~= after);
    assert(before.take(before.len() as int) =~= before);
    assert forall|i: int| #![trigger again[i]] 0 <= i < again.len() implies again[i].page_ids()
        == after[i].page_ids() && again[i].token_len == before[i].token_len by {
        assert(compacted(before, i, after[i]));
        assert(compacted(after, i, again[i]));
        lemma_compacted_stays(before, after, i);
        assert(after[i].page_ids().len() == after[i].blocks@.len());
        assert(again[i].page_ids() =~= after[i].page_ids());
    }
}

/// A sequence that grows, or is cut, keeps its tokens where they are: each one that it had, and
/// still has, is in the same page at the same place.
pub proof fn law_growth_keeps_tokens_in_place(
    allocator: PagedKvAllocator,
    before: PagedKvSequence,
    token_len: usize,
    after: PagedKvSequence,
    token: int,
)
    requires
        before.wf(),
        before.block_size == allocator.block_size,
        allocator.grown(before, token_len, after),
        0 <= token < before.token_len,
        token < token_len,
    ensures
        after.slot(token) == before.slot(token),
        after.token_len == token_len,
        after.gpu_resident_token_len <= before.gpu_resident_token_len,
{
    let size = before.block_size as int;
    let k = token / size;
    arith::lemma_ceil_div(before.token_len as int, size);
    let need = arith::ceil_div(before.token_len as int, size);
    assert(0 <= k < need) by (nonlinear_arith)
        requires
            k == token / size,
            0 <= token < before.token_len,
            need * size >= before.token_len,
            size > 0,
    ;
    assert(after.page_ids()[k] == before.page_ids()[k]);
    assert(after.page_ids().len() == after.blocks@.len());
}

} // verus!
