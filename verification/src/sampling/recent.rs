//! The tokens that a repetition penalty looks back on.
use crate::engine::sequence::Sequence;
use crate::floats;
use vstd::prelude::*;

verus! {

/// Most tokens per row that a device kernel can look back on.
pub const MAX_FUSED_REPEAT_LAST_N: usize = 1024;

/// Tokens of the look-back window.
pub open spec fn window_len(sequence: Sequence) -> int {
    if sequence.tokens@.len() <= sequence.repeat_last_n {
        sequence.tokens@.len() as int
    } else {
        sequence.repeat_last_n as int
    }
}

/// The look-back window: the last tokens of the sequence.
pub open spec fn window(sequence: Sequence) -> Seq<u32> {
    sequence.tokens@.skip(sequence.tokens@.len() - window_len(sequence))
}

/// The sequence is penalised for repetition.
pub open spec fn penalised(sequence: Sequence) -> bool {
    sequence.repetition_penalty != floats::SINGLE_ONE
}

pub fn has_penalty(sequence: &Sequence) -> (result: bool)
    ensures
        result == penalised(*sequence),
{
    sequence.repetition_penalty != floats::SINGLE_ONE
}

/// How many tokens the look-back window has.
pub fn recent_len(sequence: &Sequence) -> (result: usize)
    ensures
        result == window_len(*sequence),
{
    if sequence.tokens.len() <= sequence.repeat_last_n {
        sequence.tokens.len()
    } else {
        sequence.repeat_last_n
    }
}

/// The look-back window.
pub fn recent_tokens(sequence: &Sequence) -> (result: &[u32])
    ensures
        result@ == window(*sequence),
{
    let n: usize = sequence.tokens.len();
    let start: usize = n - recent_len(sequence);
    let tail = vstd::slice::slice_subrange(sequence.tokens.as_slice(), start, n);
    assert(tail@ =~= window(*sequence));
    tail
}

/// Look-back windows of a batch in one table, padded with zeros.
#[derive(Debug)]
pub struct RecentTokens {
    /// Width of the table.
    pub max_recent: usize,
    pub token_ids: Vec<u32>,
    pub lengths: Vec<u32>,
    /// Penalty of each row, as bits of a single; that of 1 where there is none.
    pub penalties: Vec<u32>,
}

/// The row takes part: it is alive and penalised.
pub open spec fn in_table(sequence: Sequence, alive: bool) -> bool {
    alive && penalised(sequence)
}

/// The longest look-back window among the rows that take part, of the first `rows` rows.
pub open spec fn widest(sequences: Seq<&Sequence>, alive: Seq<bool>, rows: int) -> int
    decreases rows,
{
    if rows <= 0 {
        0
    } else {
        let rest = widest(sequences, alive, rows - 1);
        let own = window_len(*sequences[rows - 1]);
        if in_table(*sequences[rows - 1], alive[rows - 1]) && own > rest {
            own
        } else {
            rest
        }
    }
}

/// No row that takes part has a longer window than the widest.
pub proof fn lemma_widest(sequences: Seq<&Sequence>, alive: Seq<bool>, rows: int, row: int)
    requires
        0 <= row < rows <= sequences.len(),
        in_table(*sequences[row], alive[row]),
    ensures
        window_len(*sequences[row]) <= widest(sequences, alive, rows),
    decreases rows,
{
    if row < rows - 1 {
        lemma_widest(sequences, alive, rows - 1, row);
    }
}

/// Finds the longest look-back window among the rows that take part.
pub fn widest_window(sequences: &[&Sequence], alive: &[bool]) -> (result: usize)
    requires
        sequences@.len() == alive@.len(),
    ensures
        result == widest(sequences@, alive@, sequences@.len() as int),
{
    let mut most: usize = 0;
    let mut r: usize = 0;
    while r < sequences.len()
        invariant
            r <= sequences@.len(),
            sequences@.len() == alive@.len(),
            most == widest(sequences@, alive@, r as int),
        decreases sequences@.len() - r,
    {
        if alive[r] && has_penalty(sequences[r]) {
            let own: usize = recent_len(sequences[r]);
            if own > most {
                most = own;
            }
        }
        r = r + 1;
    }
    most
}

/// What the table holds for one row: its window, then zeros; only zeros where the row does not
/// take part.
pub open spec fn table_row(sequence: Sequence, alive: bool, width: int) -> Seq<u32> {
    Seq::new(
        width as nat,
        |c: int|
            if in_table(sequence, alive) && c < window_len(sequence) {
                window(sequence)[c]
            } else {
                0
            },
    )
}

/// Row `row` of a table of this width holds this sequence.
pub open spec fn row_held(
    token_ids: Seq<u32>,
    lengths: Seq<u32>,
    penalties: Seq<u32>,
    sequence: Sequence,
    alive: bool,
    width: int,
    row: int,
) -> bool {
    &&& lengths[row] == if in_table(sequence, alive) {
        window_len(sequence) as u32
    } else {
        0
    }
    &&& penalties[row] == if in_table(sequence, alive) {
        sequence.repetition_penalty
    } else {
        floats::SINGLE_ONE
    }
    &&& token_ids.subrange(row * width, row * width + width) == table_row(sequence, alive, width)
}

impl RecentTokens {
    /// The table holds exactly these rows.
    pub open spec fn holds(&self, sequences: Seq<&Sequence>, alive: Seq<bool>) -> bool {
        &&& self.max_recent == widest(sequences, alive, sequences.len() as int)
        &&& self.token_ids@.len() == sequences.len() * self.max_recent
        &&& self.lengths@.len() == sequences.len()
        &&& self.penalties@.len() == sequences.len()
        &&& forall|r: int|
            0 <= r < sequences.len() ==> #[trigger] row_held(
                self.token_ids@,
                self.lengths@,
                self.penalties@,
                *sequences[r],
                alive[r],
                self.max_recent as int,
                r,
            )
    }
}

/// Builds the table of a batch.
pub fn recent_table(sequences: &[&Sequence], alive: &[bool]) -> (result: RecentTokens)
    requires
        sequences@.len() == alive@.len(),
    ensures
        result.holds(sequences@, alive@),
{
    let width: usize = widest_window(sequences, alive);
    let mut token_ids: Vec<u32> = Vec::new();
    let mut lengths: Vec<u32> = Vec::new();
    let mut penalties: Vec<u32> = Vec::new();
    let mut r: usize = 0;
    while r < sequences.len()
        invariant
            r <= sequences@.len(),
            sequences@.len() == alive@.len(),
            width == widest(sequences@, alive@, sequences@.len() as int),
            lengths@.len() == r,
            penalties@.len() == r,
            token_ids@.len() == r * width,
            forall|j: int|
                0 <= j < r ==> #[trigger] row_held(
                    token_ids@,
                    lengths@,
                    penalties@,
                    *sequences@[j],
                    alive@[j],
                    width as int,
                    j,
                ),
        decreases sequences@.len() - r,
    {
        let ghost held = token_ids@;
        let ghost held_lengths = lengths@;
        let ghost held_penalties = penalties@;
        let taken = alive[r] && has_penalty(sequences[r]);
        let recent = recent_tokens(sequences[r]);
        let mut c: usize = 0;
        proof {
            if taken {
                lemma_widest(sequences@, alive@, sequences@.len() as int, r as int);
            }
        }
        while c < width
            invariant
                c <= width,
                held_lengths == lengths@,
                held_penalties == penalties@,
                r < sequences@.len(),
                sequences@.len() == alive@.len(),
                taken == in_table(*sequences@[r as int], alive@[r as int]),
                recent@ == window(*sequences@[r as int]),
                recent@.len() == window_len(*sequences@[r as int]),
                token_ids@ =~= held + table_row(
                    *sequences@[r as int],
                    alive@[r as int],
                    width as int,
                ).take(c as int),
            decreases width - c,
        {
            if taken && c < recent.len() {
                token_ids.push(recent[c]);
            } else {
                token_ids.push(0);
            }
            c = c + 1;
        }
        lengths.push(
            if taken {
                recent.len() as u32
            } else {
                0
            },
        );
        penalties.push(
            if taken {
                sequences[r].repetition_penalty
            } else {
                floats::SINGLE_ONE
            },
        );
        proof {
            let row = table_row(*sequences@[r as int], alive@[r as int], width as int);
            assert(row.take(width as int) =~= row);
            assert(token_ids@ == held + row);
            assert((r + 1) * width == r * width + width) by (nonlinear_arith);
            assert(token_ids@.subrange(r * width, r * width + width) =~= row);
            assert forall|j: int| 0 <= j < r + 1 implies #[trigger] row_held(
                token_ids@,
                lengths@,
                penalties@,
                *sequences@[j],
                alive@[j],
                width as int,
                j,
            ) by {
                if j < r {
                    assert(row_held(
                        held,
                        held_lengths,
                        held_penalties,
                        *sequences@[j],
                        alive@[j],
                        width as int,
                        j,
                    ));
                    assert(j * width + width <= r * width) by (nonlinear_arith)
                        requires
                            j + 1 <= r,
                    ;
                    assert(0 <= j * width) by (nonlinear_arith)
                        requires
                            j >= 0,
                    ;
                    assert(token_ids@.subrange(j * width, j * width + width) =~= held.subrange(
                        j * width,
                        j * width + width,
                    ));
                }
            }
        }
        r = r + 1;
    }
    RecentTokens { max_recent: width, token_ids, lengths, penalties }
}

/// `ids` with `id` in its place, if it is not there.
pub open spec fn with_id(ids: Seq<u32>, id: u32) -> Seq<u32>
    decreases ids.len(),
{
    if ids.len() == 0 {
        seq![id]
    } else if ids.last() < id {
        ids.push(id)
    } else if ids.last() == id {
        ids
    } else {
        with_id(ids.drop_last(), id).push(ids.last())
    }
}

/// The different tokens of a list, in increasing order.
pub open spec fn distinct_sorted(tokens: Seq<u32>) -> Seq<u32>
    decreases tokens.len(),
{
    if tokens.len() == 0 {
        Seq::empty()
    } else {
        with_id(distinct_sorted(tokens.drop_last()), tokens.last())
    }
}

/// Each number is larger than the one before.
pub open spec fn increasing(ids: Seq<u32>) -> bool {
    forall|i: int, j: int| 0 <= i < j < ids.len() ==> #[trigger] ids[i] < #[trigger] ids[j]
}

proof fn lemma_with_id(ids: Seq<u32>, id: u32)
    requires
        increasing(ids),
    ensures
        increasing(with_id(ids, id)),
        forall|x: u32| #[trigger] with_id(ids, id).contains(x) <==> ids.contains(x) || x == id,
        with_id(ids, id).len() > 0,
        ids.len() > 0 && id < ids.last() ==> with_id(ids, id).last() == ids.last(),
        ids.len() == 0 || id >= ids.last() ==> with_id(ids, id).last() == id,
    decreases ids.len(),
{
    let all = with_id(ids, id);
    if ids.len() == 0 {
        assert(all[0] == id);
    } else if ids.last() < id {
        assert(all[ids.len() as int] == id);
        assert forall|x: u32| #[trigger] all.contains(x) <==> ids.contains(x) || x == id by {
            if ids.contains(x) {
                let k = ids.index_of(x);
                assert(all[k] == x);
            }
            if all.contains(x) {
                let k = all.index_of(x);
                if k < ids.len() {
                    assert(ids[k] == x);
                }
            }
        }
        assert forall|i: int, j: int| 0 <= i < j < all.len() implies #[trigger] all[i]
            < #[trigger] all[j] by {
            assert(ids[i] <= ids.last());
        }
    } else if ids.last() == id {
        assert(ids[ids.len() - 1] == id);
    } else {
        let head = ids.drop_last();
        lemma_with_id(head, id);
        let inner = with_id(head, id);
        assert forall|x: u32| #[trigger] all.contains(x) <==> ids.contains(x) || x == id by {
            if ids.contains(x) {
                let k = ids.index_of(x);
                if k < head.len() {
                    assert(head[k] == x);
                    assert(inner.contains(x));
                    let m = inner.index_of(x);
                    assert(all[m] == x);
                } else {
                    assert(all[inner.len() as int] == x);
                }
            }
            if x == id {
                assert(inner.contains(x));
                let m = inner.index_of(x);
                assert(all[m] == x);
            }
            if all.contains(x) {
                let k = all.index_of(x);
                if k < inner.len() {
                    assert(inner[k] == x);
                    assert(inner.contains(x));
                    if head.contains(x) {
                        let m = head.index_of(x);
                        assert(ids[m] == x);
                    }
                } else {
                    assert(ids[ids.len() - 1] == x);
                }
            }
        }
        assert forall|i: int, j: int| 0 <= i < j < all.len() implies #[trigger] all[i]
            < #[trigger] all[j] by {
            if j == inner.len() {
                assert(inner[i] == all[i]);
                assert(inner.contains(all[i]));
                if head.contains(all[i]) {
                    let m = head.index_of(all[i]);
                    assert(ids[m] < ids[ids.len() - 1]);
                }
            } else {
                assert(inner[i] < inner[j]);
            }
        }
    }
}

/// Sorting out the different tokens of a list keeps them all, and none twice.
pub proof fn law_distinct_sorted(tokens: Seq<u32>)
    ensures
        increasing(distinct_sorted(tokens)),
        forall|x: u32| #[trigger] distinct_sorted(tokens).contains(x) <==> tokens.contains(x),
    decreases tokens.len(),
{
    if tokens.len() > 0 {
        let head = tokens.drop_last();
        law_distinct_sorted(head);
        lemma_with_id(distinct_sorted(head), tokens.last());
        assert forall|x: u32| #[trigger] distinct_sorted(tokens).contains(x) <==> tokens.contains(
            x,
        ) by {
            if tokens.contains(x) {
                let k = tokens.index_of(x);
                if k < head.len() {
                    assert(head[k] == x);
                    assert(distinct_sorted(head).contains(x));
                }
            }
            if distinct_sorted(head).contains(x) {
                let k = head.index_of(x);
                assert(tokens[k] == x);
            }
            assert(tokens[tokens.len() - 1] == tokens.last());
        }
    } else {
        assert(distinct_sorted(tokens) =~= Seq::empty());
    }
}

/// Puts a token in its place, if it is not there.
fn insert_id(ids: &mut Vec<u32>, id: u32)
    requires
        increasing(old(ids)@),
    ensures
        final(ids)@ == with_id(old(ids)@, id),
{
    let ghost before = ids@;
    let mut at: usize = ids.len();
    assert(before.take(at as int) =~= before);
    assert(with_id(before, id) =~= with_id(before, id) + before.skip(at as int));
    while at > 0 && ids[at - 1] > id
        invariant
            at <= ids@.len(),
            ids@ == before,
            increasing(before),
            with_id(before, id) =~= with_id(before.take(at as int), id) + before.skip(at as int),
        decreases at,
    {
        proof {
            let part = before.take(at as int);
            assert(part.drop_last() =~= before.take(at - 1));
            assert(with_id(part, id) == with_id(before.take(at - 1), id).push(part.last()));
            assert(with_id(before.take(at - 1), id).push(part.last()) + before.skip(at as int)
                =~= with_id(before.take(at - 1), id) + before.skip(at - 1));
        }
        at = at - 1;
    }
    let ghost part = before.take(at as int);
    if at > 0 && ids[at - 1] == id {
        assert(with_id(part, id) == part);
        assert(part + before.skip(at as int) =~= before);
        return ;
    }
    assert(with_id(part, id) =~= part.push(id));
    ids.insert(at, id);
    assert(ids@ =~= part.push(id) + before.skip(at as int));
}

/// The different tokens of a list, in increasing order.
pub fn unique_tokens(tokens: &[u32]) -> (result: Vec<u32>)
    ensures
        result@ == distinct_sorted(tokens@),
{
    let mut ids: Vec<u32> = Vec::new();
    let mut i: usize = 0;
    assert(tokens@.take(0) =~= Seq::empty());
    while i < tokens.len()
        invariant
            i <= tokens@.len(),
            ids@ == distinct_sorted(tokens@.take(i as int)),
        decreases tokens@.len() - i,
    {
        proof {
            law_distinct_sorted(tokens@.take(i as int));
            assert(tokens@.take(i + 1).drop_last() =~= tokens@.take(i as int));
        }
        insert_id(&mut ids, tokens[i]);
        i = i + 1;
    }
    assert(tokens@.take(i as int) =~= tokens@);
    ids
}

/// The penalised tokens are the most recent ones. Token `i` of a sequence is among them exactly if
/// no more than `repeat_last_n` tokens are left from it on, and it then stands as far from the end
/// of the window as from the end of the sequence.
pub proof fn law_window_looks_back(sequence: Sequence, recent: Seq<u32>, i: int)
    requires
        recent == window(sequence),
        0 <= i < sequence.tokens@.len(),
    ensures
        recent.len() <= sequence.repeat_last_n,
        recent.len() <= sequence.tokens@.len(),
        sequence.tokens@.len() - i <= sequence.repeat_last_n <==> sequence.tokens@.len() - i
            <= recent.len(),
        sequence.tokens@.len() - i <= sequence.repeat_last_n ==> recent[recent.len() - (
        sequence.tokens@.len() - i)] == sequence.tokens@[i],
        sequence.repeat_last_n > 0 ==> recent.len() > 0 && recent.last()
            == sequence.tokens@.last(),
{
}

/// A new token enters the window; it pushes the oldest one out where the window is full.
pub proof fn law_window_slides(before: Sequence, after: Sequence, token: u32)
    requires
        after.tokens@ == before.tokens@.push(token),
        after.repeat_last_n == before.repeat_last_n,
    ensures
        before.repeat_last_n == 0 ==> window(after).len() == 0,
        window(before).len() < before.repeat_last_n ==> window(after) == window(before).push(token),
        window(before).len() >= before.repeat_last_n > 0 ==> window(after) == window(before).skip(
            1,
        ).push(token),
{
    if window(before).len() < before.repeat_last_n {
        assert(window(after) =~= window(before).push(token));
    } else if before.repeat_last_n > 0 {
        assert(window(after) =~= window(before).skip(1).push(token));
    }
}

/// Row `r` of a batch's table has the sequence's most recent tokens, oldest first, and zeros
/// behind them; a row that is not alive, or not penalised, has a length of zero and a penalty of 1.
pub proof fn law_table_looks_back(
    table: RecentTokens,
    sequences: Seq<&Sequence>,
    alive: Seq<bool>,
    r: int,
    back: int,
)
    requires
        sequences.len() == alive.len(),
        table.holds(sequences, alive),
        0 <= r < sequences.len(),
        sequences[r].repeat_last_n <= u32::MAX,
    ensures
        !alive[r] || sequences[r].repetition_penalty == floats::SINGLE_ONE ==> table.lengths@[r] == 0
            && table.penalties@[r] == floats::SINGLE_ONE,
        alive[r] && sequences[r].repetition_penalty != floats::SINGLE_ONE ==> {
            &&& table.penalties@[r] == sequences[r].repetition_penalty
            &&& table.lengths@[r] <= table.max_recent
            &&& 1 <= back <= sequences[r].tokens@.len() && back <= sequences[r].repeat_last_n ==> {
                &&& back <= table.lengths@[r]
                &&& table.token_ids@[r * table.max_recent + table.lengths@[r] - back]
                    == sequences[r].tokens@[sequences[r].tokens@.len() - back]
            }
        },
        table.lengths@[r] <= sequences[r].repeat_last_n,
        forall|c: int|
            table.lengths@[r] <= c < table.max_recent ==> #[trigger] table.token_ids@[r
                * table.max_recent + c] == 0,
{
    let width = table.max_recent as int;
    let sequence = *sequences[r];
    assert(row_held(
        table.token_ids@,
        table.lengths@,
        table.penalties@,
        sequence,
        alive[r],
        width,
        r,
    ));
    let row = table.token_ids@.subrange(r * width, r * width + width);
    assert(row == table_row(sequence, alive[r], width));
    assert(0 <= r * width && r * width + width <= sequences.len() * width) by (nonlinear_arith)
        requires
            0 <= r < sequences.len(),
            0 <= width,
    ;
    if in_table(sequence, alive[r]) {
        lemma_widest(sequences, alive, sequences.len() as int, r);
        let len = window_len(sequence);
        if 1 <= back <= len {
            assert(row[len - back] == table.token_ids@[r * width + len - back]);
            law_window_looks_back(sequence, window(sequence), sequence.tokens@.len() - back);
        }
    }
    assert forall|c: int| table.lengths@[r] <= c < width implies #[trigger] table.token_ids@[r
        * width + c] == 0 by {
        assert(row[c] == table.token_ids@[r * width + c]);
    }
}

} // verus!
