//! The comparisons behind the conversion of magnitudes to bounded levels.
//!
//! A buffer of magnitudes becomes a buffer of levels in `[0, 1]` in two
//! steps: a conversion to decibels below the peak, clipped a fixed range
//! under the loudest value, and a rescaling of what is left to the unit
//! range. Each step first reduces the whole buffer to its extremes and then
//! maps every value. The reductions, the clipping and the checks that refuse
//! an input are here; the arithmetic of the maps is the caller's.

use crate::error::SpectrogramError;
use crate::word::{
    below, encodes_no_number, is_below, is_nan, is_negative, magnitude, magnitude_of, rank,
    sign_bit_set, LARGEST, LOWEST, ZERO,
};
use vstd::prelude::*;

verus! {

/// A logarithm with the negative ones raised to zero: a word whose sign bit
/// is set becomes positive zero, any other word stays as it is.
pub open spec fn floored(word: u64) -> u64 {
    if is_negative(word) {
        ZERO
    } else {
        word
    }
}

/// Whether the number of a word is zero or less.
pub open spec fn at_most_zero(word: u64) -> bool {
    !is_nan(word) && rank(word) <= 0
}

/// Whether the number of a word is less than zero.
pub open spec fn below_zero(word: u64) -> bool {
    !is_nan(word) && rank(word) < 0
}

/// Whether a floor `amin` and a dynamic range `top_db` are accepted by the
/// decibel conversion: the floor is not zero or less, and the range is not
/// less than zero.
pub open spec fn db_arguments_valid(amin: u64, top_db: u64) -> bool {
    !at_most_zero(amin) && !below_zero(top_db)
}

/// Whether `peak` is what the largest-magnitude reduction gives for
/// `buffer`: the largest magnitude of the words that encode a number, or the
/// lowest finite number where none does.
pub open spec fn is_peak_magnitude(buffer: Seq<u64>, peak: u64) -> bool {
    if forall|index: int| 0 <= index < buffer.len() ==> is_nan(#[trigger] buffer[index]) {
        peak == LOWEST
    } else {
        &&& !is_nan(peak)
        &&& !is_negative(peak)
        &&& exists|index: int|
            0 <= index < buffer.len() && !is_nan(#[trigger] buffer[index]) && magnitude_of(
                buffer[index],
            ) == peak
        &&& forall|index: int|
            0 <= index < buffer.len() && !is_nan(#[trigger] buffer[index]) ==> magnitude_of(
                buffer[index],
            ) <= peak
    }
}

/// Whether `least` is what the smallest-magnitude reduction gives for
/// `buffer`: the smallest magnitude of the words that encode a number, or the
/// largest finite number where none does.
pub open spec fn is_least_magnitude(buffer: Seq<u64>, least: u64) -> bool {
    if forall|index: int| 0 <= index < buffer.len() ==> is_nan(#[trigger] buffer[index]) {
        least == LARGEST
    } else {
        &&& !is_nan(least)
        &&& !is_negative(least)
        &&& exists|index: int|
            0 <= index < buffer.len() && !is_nan(#[trigger] buffer[index]) && magnitude_of(
                buffer[index],
            ) == least
        &&& forall|index: int|
            0 <= index < buffer.len() && !is_nan(#[trigger] buffer[index]) ==> least
                <= magnitude_of(buffer[index])
    }
}

/// Whether `top` is what the maximum reduction gives for `buffer`: the first
/// of the words whose number no other exceeds, or the lowest finite number
/// where no word encodes a number above it.
pub open spec fn is_first_maximum(buffer: Seq<u64>, top: u64) -> bool {
    if forall|index: int|
        0 <= index < buffer.len() ==> !is_below(LOWEST, #[trigger] buffer[index]) {
        top == LOWEST
    } else {
        exists|index: int|
            {
                &&& 0 <= index < buffer.len()
                &&& #[trigger] buffer[index] == top
                &&& is_below(LOWEST, top)
                &&& forall|other: int|
                    0 <= other < buffer.len() ==> !is_below(top, #[trigger] buffer[other])
                &&& forall|earlier: int|
                    0 <= earlier < index ==> is_nan(#[trigger] buffer[earlier]) || is_below(
                        buffer[earlier],
                        top,
                    )
            }
    }
}

/// A word clipped from below: the larger of `word` and `floor`, `word` where
/// they are the same number, and the other one where one of them encodes no
/// number.
pub open spec fn clipped(word: u64, floor: u64) -> u64 {
    if is_nan(word) || is_below(word, floor) {
        floor
    } else {
        word
    }
}

/// Raises a negative logarithm to zero. Given the word of `log10(x)`, returns
/// the word of `log10(x)` floored at zero: positive zero where the sign bit
/// is set, which covers every `x` below one, and the word itself otherwise.
pub fn floor_negative(log: u64) -> (raised: u64)
    ensures
        raised == floored(log),
        !is_negative(raised),
{
    if sign_bit_set(log) {
        ZERO
    } else {
        log
    }
}

/// Checks the arguments of the decibel conversion: `InvalidArgument` where
/// the floor `amin` is zero or less, or the range `top_db` is less than zero.
pub fn check_db_arguments(amin: u64, top_db: u64) -> (checked: Result<(), SpectrogramError>)
    ensures
        db_arguments_valid(amin, top_db) ==> checked is Ok,
        !db_arguments_valid(amin, top_db) ==> checked is Err && checked->Err_0
            == SpectrogramError::InvalidArgument,
{
    if !encodes_no_number(amin) && !below(ZERO, amin) {
        return Err(SpectrogramError::InvalidArgument);
    }
    if below(top_db, ZERO) {
        return Err(SpectrogramError::InvalidArgument);
    }
    Ok(())
}

/// The largest magnitude in `buffer`: the reference of the decibel scale.
pub fn peak_magnitude(buffer: &[u64]) -> (peak: u64)
    ensures
        is_peak_magnitude(buffer@, peak),
{
    let mut peak: u64 = LOWEST;
    let mut index: usize = 0;
    while index < buffer.len()
        invariant
            index <= buffer@.len(),
            is_peak_magnitude(buffer@.take(index as int), peak),
        decreases buffer@.len() - index,
    {
        let ghost seen = buffer@.take(index as int);
        let ghost grown = buffer@.take(index + 1);
        let size = magnitude(buffer[index]);
        assert(forall|earlier: int| 0 <= earlier < index ==> grown[earlier] == seen[earlier]);
        assert(grown[index as int] == buffer@[index as int]);
        if !encodes_no_number(size) && (peak == LOWEST || size > peak) {
            if peak != LOWEST {
                let ghost witness = choose|at: int|
                    0 <= at < seen.len() && !is_nan(#[trigger] seen[at]) && magnitude_of(seen[at])
                        == peak;
                assert(!is_nan(seen[witness]));
            }
            peak = size;
        } else if !encodes_no_number(size) {
            let ghost witness = choose|at: int|
                0 <= at < seen.len() && !is_nan(#[trigger] seen[at]) && magnitude_of(seen[at])
                    == peak;
            assert(grown[witness] == seen[witness]);
        } else if peak != LOWEST {
            let ghost witness = choose|at: int|
                0 <= at < seen.len() && !is_nan(#[trigger] seen[at]) && magnitude_of(seen[at])
                    == peak;
            assert(grown[witness] == seen[witness]);
        }
        index += 1;
    }
    assert(buffer@.take(index as int) =~= buffer@);
    peak
}

/// The smallest magnitude in `buffer`, or the largest finite number where no
/// word of it encodes a number.
fn least_magnitude(buffer: &[u64]) -> (least: u64)
    ensures
        is_least_magnitude(buffer@, least),
{
    let mut least: u64 = LARGEST;
    let mut found: bool = false;
    let mut index: usize = 0;
    while index < buffer.len()
        invariant
            index <= buffer@.len(),
            is_least_magnitude(buffer@.take(index as int), least),
            found <==> exists|at: int|
                0 <= at < index && !is_nan(#[trigger] buffer@.take(index as int)[at]),
        decreases buffer@.len() - index,
    {
        let ghost seen = buffer@.take(index as int);
        let ghost grown = buffer@.take(index + 1);
        let size = magnitude(buffer[index]);
        assert(forall|earlier: int| 0 <= earlier < index ==> grown[earlier] == seen[earlier]);
        assert(grown[index as int] == buffer@[index as int]);
        if !encodes_no_number(size) && (!found || size < least) {
            least = size;
            found = true;
        } else if found {
            let ghost witness = choose|at: int|
                0 <= at < seen.len() && !is_nan(#[trigger] seen[at]) && magnitude_of(seen[at])
                    == least;
            assert(grown[witness] == seen[witness]);
        }
        index += 1;
    }
    assert(buffer@.take(index as int) =~= buffer@);
    least
}

/// Whether the magnitudes of `buffer` span no range: the smallest and the
/// largest magnitude are the same.
pub open spec fn is_degenerate(buffer: Seq<u64>) -> bool {
    exists|both: u64| is_least_magnitude(buffer, both) && is_peak_magnitude(buffer, both)
}

/// A buffer has one smallest and one largest magnitude.
pub proof fn lemma_extremes_unique(buffer: Seq<u64>, first: u64, second: u64)
    ensures
        is_peak_magnitude(buffer, first) && is_peak_magnitude(buffer, second) ==> first == second,
        is_least_magnitude(buffer, first) && is_least_magnitude(buffer, second) ==> first
            == second,
{
}

/// The range brackets the buffer. Where the smallest and the largest
/// magnitude differ, the smallest is below the largest, each is the magnitude
/// of a word of the buffer, and the magnitude of every word that encodes a
/// number lies between the two: no more above the smallest than the largest
/// is.
pub proof fn lemma_range_brackets(buffer: Seq<u64>, least: u64, peak: u64, index: int)
    requires
        is_least_magnitude(buffer, least),
        is_peak_magnitude(buffer, peak),
        least != peak,
        0 <= index < buffer.len(),
        !is_nan(buffer[index]),
    ensures
        least < peak,
        least <= magnitude_of(buffer[index]) <= peak,
        magnitude_of(buffer[index]) - least <= peak - least,
        exists|at: int|
            0 <= at < buffer.len() && !is_nan(#[trigger] buffer[at]) && magnitude_of(buffer[at])
                == least,
        exists|at: int|
            0 <= at < buffer.len() && !is_nan(#[trigger] buffer[at]) && magnitude_of(buffer[at])
                == peak,
{
}

/// The smallest and the largest magnitude of `buffer`, in this order: the
/// range that the levels are rescaled from. `DegenerateRange` where the two
/// are the same, as they are for a buffer whose magnitudes are all equal,
/// finite or not: such a buffer cannot be rescaled.
pub fn magnitude_range(buffer: &[u64]) -> (range: Result<(u64, u64), SpectrogramError>)
    ensures
        range is Err <==> is_degenerate(buffer@),
        range is Err ==> range->Err_0 == SpectrogramError::DegenerateRange,
        range is Ok ==> is_least_magnitude(buffer@, range->Ok_0.0) && is_peak_magnitude(
            buffer@,
            range->Ok_0.1,
        ),
{
    let least = least_magnitude(buffer);
    let peak = peak_magnitude(buffer);
    proof {
        if is_degenerate(buffer@) {
            let both = choose|both: u64|
                is_least_magnitude(buffer@, both) && is_peak_magnitude(buffer@, both);
            lemma_extremes_unique(buffer@, both, least);
            lemma_extremes_unique(buffer@, both, peak);
        }
    }
    if least == peak {
        Err(SpectrogramError::DegenerateRange)
    } else {
        Ok((least, peak))
    }
}

/// The largest value in `buffer`, the first of them where several are the
/// same number.
pub fn maximum(buffer: &[u64]) -> (top: u64)
    ensures
        is_first_maximum(buffer@, top),
{
    let mut top: u64 = LOWEST;
    let mut index: usize = 0;
    let ghost mut place: int = 0;
    while index < buffer.len()
        invariant
            index <= buffer@.len(),
            top == LOWEST || is_below(LOWEST, top),
            top == LOWEST ==> forall|at: int|
                0 <= at < index ==> !is_below(LOWEST, #[trigger] buffer@[at]),
            top != LOWEST ==> 0 <= place < index && buffer@[place] == top,
            forall|at: int| 0 <= at < index ==> !is_below(top, #[trigger] buffer@[at]),
            top != LOWEST ==> forall|at: int|
                0 <= at < place ==> is_nan(#[trigger] buffer@[at]) || is_below(buffer@[at], top),
        decreases buffer@.len() - index,
    {
        let word = buffer[index];
        if below(top, word) {
            top = word;
            proof {
                place = index as int;
            }
        }
        index += 1;
    }
    proof {
        if top != LOWEST {
            assert(buffer@[place] == top);
        }
    }
    top
}

/// Clips every value of `buffer` from below at `floor`.
pub fn clip_below(buffer: &mut Vec<u64>, floor: u64)
    ensures
        final(buffer)@.len() == old(buffer)@.len(),
        forall|index: int|
            0 <= index < old(buffer)@.len() ==> #[trigger] final(buffer)@[index] == clipped(
                old(buffer)@[index],
                floor,
            ),
{
    let mut index: usize = 0;
    while index < buffer.len()
        invariant
            index <= buffer@.len(),
            buffer@.len() == old(buffer)@.len(),
            forall|at: int|
                0 <= at < index ==> #[trigger] buffer@[at] == clipped(old(buffer)@[at], floor),
            forall|at: int| index <= at < buffer@.len() ==> #[trigger] buffer@[at] == old(buffer)@[at],
        decreases buffer@.len() - index,
    {
        let word = buffer[index];
        if encodes_no_number(word) || below(word, floor) {
            buffer.set(index, floor);
        }
        index += 1;
    }
}

} // verus!
