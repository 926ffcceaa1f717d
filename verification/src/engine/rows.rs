//! Rows of a batch: which of them are alive, and lists about them.
use vstd::prelude::*;

verus! {

/// How many rows are alive.
pub open spec fn alive_count(alive: Seq<bool>) -> int
    decreases alive.len(),
{
    if alive.len() == 0 {
        0
    } else {
        alive_count(alive.drop_last()) + if alive.last() {
            1int
        } else {
            0
        }
    }
}

/// Every row is alive.
pub open spec fn all_alive(alive: Seq<bool>) -> bool {
    forall|r: int| 0 <= r < alive.len() ==> #[trigger] alive[r]
}

/// No row is alive.
pub open spec fn none_alive(alive: Seq<bool>) -> bool {
    forall|r: int| 0 <= r < alive.len() ==> !#[trigger] alive[r]
}

/// The count is between none and all, and meets each end in one case only.
pub proof fn lemma_alive_count(alive: Seq<bool>)
    ensures
        0 <= alive_count(alive) <= alive.len(),
        alive_count(alive) == 0 <==> none_alive(alive),
        alive_count(alive) == alive.len() <==> all_alive(alive),
    decreases alive.len(),
{
    if alive.len() > 0 {
        let head = alive.drop_last();
        lemma_alive_count(head);
        assert(alive.last() == alive[alive.len() - 1]);
        if none_alive(alive) {
            assert forall|r: int| 0 <= r < head.len() implies !#[trigger] head[r] by {
                assert(!alive[r]);
            }
        }
        if none_alive(head) && !alive.last() {
            assert forall|r: int| 0 <= r < alive.len() implies !#[trigger] alive[r] by {
                if r < head.len() {
                    assert(!head[r]);
                }
            }
        }
        if all_alive(alive) {
            assert forall|r: int| 0 <= r < head.len() implies #[trigger] head[r] by {
                assert(alive[r]);
            }
        }
        if all_alive(head) && alive.last() {
            assert forall|r: int| 0 <= r < alive.len() implies #[trigger] alive[r] by {
                if r < head.len() {
                    assert(head[r]);
                }
            }
        }
    }
}

/// Counts the rows that are alive.
pub fn active_rows(alive: &Vec<bool>) -> (result: usize)
    ensures
        result == alive_count(alive@),
        result <= alive@.len(),
{
    let mut count: usize = 0;
    let mut r: usize = 0;
    while r < alive.len()
        invariant
            r <= alive@.len(),
            count <= r,
            count == alive_count(alive@.take(r as int)),
        decreases alive@.len() - r,
    {
        assert(alive@.take(r + 1).drop_last() =~= alive@.take(r as int));
        if alive[r] {
            count = count + 1;
        }
        r = r + 1;
    }
    assert(alive@.take(r as int) =~= alive@);
    count
}

/// Whether every row is alive.
pub fn are_all_alive(alive: &Vec<bool>) -> (result: bool)
    ensures
        result == all_alive(alive@),
{
    let count: usize = active_rows(alive);
    proof {
        lemma_alive_count(alive@);
    }
    count == alive.len()
}

/// Whether some row is alive.
pub fn is_any_alive(alive: &Vec<bool>) -> (result: bool)
    ensures
        result == !none_alive(alive@),
{
    let count: usize = active_rows(alive);
    proof {
        lemma_alive_count(alive@);
    }
    count > 0
}

/// The largest of the numbers that are there, or 0.
pub open spec fn largest(values: Seq<Option<usize>>) -> int
    decreases values.len(),
{
    if values.len() == 0 {
        0
    } else {
        let rest = largest(values.drop_last());
        match values.last() {
            Some(value) => if value > rest {
                value as int
            } else {
                rest
            },
            None => rest,
        }
    }
}

/// The largest number bounds all of them.
pub proof fn lemma_largest(values: Seq<Option<usize>>)
    ensures
        largest(values) >= 0,
        forall|r: int|
            0 <= r < values.len() ==> match #[trigger] values[r] {
                Some(value) => value <= largest(values),
                None => true,
            },
    decreases values.len(),
{
    if values.len() > 0 {
        let head = values.drop_last();
        lemma_largest(head);
        assert forall|r: int| 0 <= r < values.len() implies match #[trigger] values[r] {
            Some(value) => value <= largest(values),
            None => true,
        } by {
            if r < head.len() {
                assert(head[r] == values[r]);
            }
        }
    }
}

/// Finds the largest of the numbers that are there.
pub fn find_largest(values: &Vec<Option<usize>>) -> (result: usize)
    ensures
        result == largest(values@),
{
    let mut most: usize = 0;
    let mut r: usize = 0;
    while r < values.len()
        invariant
            r <= values@.len(),
            most == largest(values@.take(r as int)),
        decreases values@.len() - r,
    {
        assert(values@.take(r + 1).drop_last() =~= values@.take(r as int));
        match values[r] {
            Some(value) => {
                if value > most {
                    most = value;
                }
            },
            None => {},
        }
        r = r + 1;
    }
    assert(values@.take(r as int) =~= values@);
    most
}

/// Whether two lists of ids are the same.
pub fn same_ids(left: &Vec<u64>, right: &Vec<u64>) -> (result: bool)
    ensures
        result == (left@ == right@),
{
    if left.len() != right.len() {
        return false;
    }
    let mut i: usize = 0;
    while i < left.len()
        invariant
            i <= left@.len(),
            left@.len() == right@.len(),
            forall|j: int| 0 <= j < i ==> #[trigger] left@[j] == right@[j],
        decreases left@.len() - i,
    {
        if left[i] != right[i] {
            assert(left@[i as int] != right@[i as int]);
            return false;
        }
        i = i + 1;
    }
    assert(left@ =~= right@);
    true
}

/// A row that dies is one less that is alive, and one that is alive counts as one.
pub proof fn law_rows_are_counted_one_by_one(alive: Seq<bool>, r: int)
    requires
        0 <= r < alive.len(),
    ensures
        alive_count(alive.update(r, true)) == alive_count(alive.update(r, false)) + 1,
        alive_count(Seq::empty()) == 0,
    decreases alive.len(),
{
    let head = alive.drop_last();
    if r == alive.len() - 1 {
        assert(alive.update(r, true).drop_last() =~= head);
        assert(alive.update(r, false).drop_last() =~= head);
    } else {
        law_rows_are_counted_one_by_one(head, r);
        assert(alive.update(r, true).drop_last() =~= head.update(r, true));
        assert(alive.update(r, false).drop_last() =~= head.update(r, false));
    }
}

/// The largest number is none less than any, and is one of them, unless there is nothing above
/// zero.
pub proof fn law_largest_is_one_of_them(values: Seq<Option<usize>>)
    ensures
        forall|r: int|
            0 <= r < values.len() ==> match #[trigger] values[r] {
                Some(value) => value <= largest(values),
                None => true,
            },
        largest(values) > 0 ==> exists|r: int|
            0 <= r < values.len() && #[trigger] values[r] == Some(largest(values) as usize),
    decreases values.len(),
{
    lemma_largest(values);
    if values.len() > 0 && largest(values) > 0 {
        let head = values.drop_last();
        law_largest_is_one_of_them(head);
        if largest(values) == largest(head) {
            let r = choose|r: int|
                0 <= r < head.len() && #[trigger] head[r] == Some(largest(head) as usize);
            assert(values[r] == Some(largest(values) as usize));
        } else {
            assert(values[values.len() - 1] == Some(largest(values) as usize));
        }
    }
}

} // verus!
