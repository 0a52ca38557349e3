//! Scores that a model gives, as bit patterns of 32-bit floating point numbers.

use vstd::prelude::*;

verus! {

/// Where a bit pattern stands in the total order of floating point numbers:
/// those without the sign bit by their value, those with it below, reversed.
pub open spec fn score_key(bits: u32) -> int {
    if bits < 0x8000_0000 {
        bits as int
    } else {
        0x7fff_ffff - bits
    }
}

/// No two bit patterns stand at the same place.
pub proof fn law_scores_are_ordered_strictly(a: u32, b: u32)
    requires
        score_key(a) == score_key(b),
    ensures
        a == b,
{
}

fn key_of(bits: u32) -> (key: i64)
    ensures
        key == score_key(bits),
{
    if bits < 0x8000_0000 {
        bits as i64
    } else {
        0x7fff_ffff - bits as i64
    }
}

/// The position of the highest score, the last one where several are highest.
pub open spec fn best(row: Seq<u32>) -> int
    decreases row.len(),
{
    if row.len() <= 1 {
        0
    } else {
        let before = best(row.drop_last());
        if score_key(row.last()) >= score_key(row[before]) {
            row.len() - 1
        } else {
            before
        }
    }
}

/// The position is one of the row, no score is higher and no later one as high.
pub proof fn law_best_is_the_last_highest(row: Seq<u32>)
    requires
        row.len() > 0,
    ensures
        0 <= best(row) < row.len(),
        forall|i: int|
            0 <= i < row.len() ==> score_key(#[trigger] row[i]) <= score_key(row[best(row)]),
        forall|i: int|
            best(row) < i < row.len() ==> score_key(#[trigger] row[i]) < score_key(row[best(row)]),
    decreases row.len(),
{
    if row.len() > 1 {
        law_best_is_the_last_highest(row.drop_last());
        assert forall|i: int| 0 <= i < row.len() implies score_key(#[trigger] row[i]) <= score_key(
            row[best(row)],
        ) by {
            if i < row.len() - 1 {
                assert(row.drop_last()[i] == row[i]);
            }
        }
        assert forall|i: int| best(row) < i < row.len() implies score_key(#[trigger] row[i])
            < score_key(row[best(row)]) by {
            if i < row.len() - 1 {
                assert(row.drop_last()[i] == row[i]);
            }
        }
    }
}

/// The position of the highest score.
pub fn argmax(row: &[u32]) -> (at: Option<usize>)
    ensures
        match at {
            Some(at) => row@.len() > 0 && at == best(row@) && at < row@.len(),
            None => row@.len() == 0,
        },
{
    if row.len() == 0 {
        return None;
    }
    let mut at: usize = 0;
    assert(row@.take(1).len() == 1);
    for i in 1..row.len()
        invariant
            at < i <= row@.len(),
            at == best(row@.take(i as int)),
    {
        assert(row@.take(i + 1).drop_last() =~= row@.take(i as int));
        if key_of(row[i]) >= key_of(row[at]) {
            at = i;
        }
    }
    assert(row@.take(row@.len() as int) =~= row@);
    Some(at)
}

/// Scores are ordered as the numbers are: among numbers without a sign a greater
/// pattern is the higher one, among numbers with a sign it is the lower one, and a
/// number with a sign is below every number without.
pub proof fn law_scores_are_ordered_as_numbers(a: u32, b: u32)
    requires
        a < b,
    ensures
        b <= 0x7fff_ffff ==> score_key(a) < score_key(b),
        a >= 0x8000_0000 ==> score_key(a) > score_key(b),
        a <= 0x7fff_ffff && b >= 0x8000_0000 ==> score_key(a) > score_key(b),
{
}

/// The position is that of a highest score, and no later score is as high.
pub open spec fn is_last_highest(row: Seq<u32>, at: int) -> bool {
    &&& 0 <= at < row.len()
    &&& forall|i: int| 0 <= i < row.len() ==> score_key(#[trigger] row[i]) <= score_key(row[at])
    &&& forall|i: int| at < i < row.len() ==> score_key(#[trigger] row[i]) < score_key(row[at])
}

/// One position of a row is best, and no other.
pub proof fn law_one_position_is_best(row: Seq<u32>, at: int)
    requires
        row.len() > 0,
    ensures
        is_last_highest(row, at) == (at == best(row)),
{
    law_best_is_the_last_highest(row);
    if is_last_highest(row, at) && at != best(row) {
        assert(score_key(row[at]) <= score_key(row[best(row)]));
        assert(score_key(row[best(row)]) <= score_key(row[at]));
    }
}

} // verus!
