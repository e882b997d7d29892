//! The disk space that a download still needs.

use vstd::prelude::*;

use crate::error::{Failure, MgetError};

verus! {

/// How many bytes of a file are still to be written.
#[derive(Debug, Clone, Copy, PartialEq, Eq, Structural)]
pub enum Remaining {
    /// So many.
    Bytes(u64),
    /// Those of the chunks that the record does not have.
    InRecord,
}

/// How many bytes of a file are still to be written: none when its size is not known or
/// the target has that size, all of them when the target has another size, and else
/// those that the partial file does not have. A partial file of full size with a record
/// beside it has the chunks of the record.
pub open spec fn remaining_of(
    size: Option<u64>,
    target_len: Option<u64>,
    part_len: Option<u64>,
    state_exists: bool,
) -> Remaining {
    match (size, target_len) {
        (None, _) => Remaining::Bytes(0),
        (Some(size), Some(len)) => Remaining::Bytes(
            if len == size {
                0
            } else {
                size
            },
        ),
        (Some(size), None) => match part_len {
            None => Remaining::Bytes(size),
            Some(len) => if len == size && state_exists {
                Remaining::InRecord
            } else if len >= size {
                Remaining::Bytes(0)
            } else {
                Remaining::Bytes((size - len) as u64)
            },
        },
    }
}

/// How many bytes of a file are still to be written, from its size, if that is known, the
/// lengths of the target and of the partial file, if they are there, and whether there is
/// a record of chunks.
pub fn task_remaining_size(
    size: Option<u64>,
    target_len: Option<u64>,
    part_len: Option<u64>,
    state_exists: bool,
) -> (r: Remaining)
    ensures
        r == remaining_of(size, target_len, part_len, state_exists),
{
    let size = match size {
        Some(size) => size,
        None => {
            return Remaining::Bytes(0);
        },
    };
    if let Some(len) = target_len {
        return Remaining::Bytes(
            if len == size {
                0
            } else {
                size
            },
        );
    }
    match part_len {
        None => Remaining::Bytes(size),
        Some(len) => {
            if len == size && state_exists {
                Remaining::InRecord
            } else if len >= size {
                Remaining::Bytes(0)
            } else {
                Remaining::Bytes(size - len)
            }
        },
    }
}

/// No file needs more space than its size.
pub proof fn remaining_is_at_most_size(
    size: u64,
    target_len: Option<u64>,
    part_len: Option<u64>,
    state_exists: bool,
)
    ensures
        remaining_of(Some(size), target_len, part_len, state_exists) matches Remaining::Bytes(n)
            ==> n <= size,
{
}

/// The sum of numbers.
pub open spec fn sum(values: Seq<u64>) -> nat
    decreases values.len(),
{
    if values.len() == 0 {
        0
    } else {
        sum(values.drop_last()) + values.last() as nat
    }
}

/// The sum of the first numbers is no larger than that of all.
proof fn lemma_sum_grows(values: Seq<u64>, n: int)
    requires
        0 <= n <= values.len(),
    ensures
        sum(values.take(n)) <= sum(values),
    decreases values.len(),
{
    if n < values.len() {
        assert(values.drop_last().take(n) =~= values.take(n));
        lemma_sum_grows(values.drop_last(), n);
    } else {
        assert(values.take(n) =~= values);
    }
}

/// The sum of the bytes that are still to be written, unless it is too large for a
/// number.
pub fn needed_space(remaining: &Vec<u64>) -> (r: Option<u64>)
    ensures
        match r {
            Some(total) => total == sum(remaining@),
            None => sum(remaining@) > u64::MAX,
        },
{
    let mut total: u64 = 0;
    let mut i: usize = 0;
    while i < remaining.len()
        invariant
            i <= remaining.len(),
            total == sum(remaining@.take(i as int)),
        decreases remaining.len() - i,
    {
        assert(remaining@.take(i + 1).drop_last() =~= remaining@.take(i as int));
        proof {
            lemma_sum_grows(remaining@, i + 1);
        }
        match total.checked_add(remaining[i]) {
            Some(next) => {
                total = next;
            },
            None => {
                return None;
            },
        }
        i += 1;
    }
    assert(remaining@.take(i as int) =~= remaining@);
    Some(total)
}

/// Whether there is space for so many bytes.
pub open spec fn has_space(needed: u64, available: u64) -> bool {
    needed <= available
}

/// Refuses a download to `path` for which there is not enough space.
pub fn preflight_disk_space(path: &str, needed: u64, available: u64) -> (r: Result<(), MgetError>)
    ensures
        match r {
            Ok(_) => has_space(needed, available),
            Err(error) => !has_space(needed, available) && error@ == (Failure::NotEnoughSpace {
                path: path@,
                needed,
                available,
            }),
        },
{
    if available < needed {
        Err(MgetError::NotEnoughSpace { path: path.to_owned(), needed, available })
    } else {
        Ok(())
    }
}

/// What is on disk and what is still to be written make up the file: nothing is missing of a
/// target of its size, all of it of a target of another size or where nothing is there, and of
/// a partial file what it lacks. What the record says counts only beside a partial file of the
/// size of the file.
pub proof fn remaining_completes_the_file(size: u64, len: u64, part_len: Option<u64>, state: bool)
    ensures
        remaining_of(None, Some(len), part_len, state) == Remaining::Bytes(0),
        remaining_of(None, None, part_len, state) == Remaining::Bytes(0),
        remaining_of(Some(size), Some(size), part_len, state) == Remaining::Bytes(0),
        len != size ==> remaining_of(Some(size), Some(len), part_len, state) == Remaining::Bytes(
            size,
        ),
        remaining_of(Some(size), None, None, state) == Remaining::Bytes(size),
        len < size ==> (remaining_of(Some(size), None, Some(len), state) matches Remaining::Bytes(
            rest,
        ) && len + rest == size),
        len > size ==> remaining_of(Some(size), None, Some(len), state) == Remaining::Bytes(0),
        remaining_of(Some(size), None, Some(size), false) == Remaining::Bytes(0),
        remaining_of(Some(size), None, Some(size), true) == Remaining::InRecord,
{
}

/// A sum is taken number by number.
pub proof fn sums_go_number_by_number(a: Seq<u64>, b: Seq<u64>, x: u64)
    ensures
        sum(a + b) == sum(a) + sum(b),
        sum(seq![x]) == x,
        sum(Seq::<u64>::empty()) == 0,
    decreases b.len(),
{
    assert(seq![x].drop_last() =~= Seq::<u64>::empty());
    assert(sum(Seq::<u64>::empty()) == 0);
    assert(sum(seq![x]) == sum(seq![x].drop_last()) + x);
    if b.len() == 0 {
        assert(a + b =~= a);
    } else {
        assert((a + b).drop_last() =~= a + b.drop_last());
        sums_go_number_by_number(a, b.drop_last(), x);
    }
}

/// There is space for a download exactly if what is available is what it needs and something
/// more, or nothing more.
pub proof fn space_is_what_is_left(needed: u64, more: u64, available: u64)
    ensures
        needed + more <= u64::MAX ==> has_space(needed, (needed + more) as u64),
        available < needed ==> !has_space(needed, available),
{
}

} // verus!
