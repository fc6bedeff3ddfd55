//! The summary statistics of a finished session: words per minute from a
//! word count and an elapsed time in whole milliseconds, rounded to the
//! nearest integer.

use vstd::prelude::*;

verus! {

/// Words per minute, rounded to the nearest integer: `words / (millis /
/// 60000)` with the half added before the division.
pub open spec fn wpm_spec(words: int, millis: int) -> int
    recommends
        millis >= 1,
{
    (words * 60000 + millis / 2) / millis
}

/// Compute the rounded words-per-minute figure for `words` words typed over
/// `elapsed_millis` milliseconds.
pub fn words_per_minute(words: usize, elapsed_millis: u64) -> (r: u64)
    requires
        elapsed_millis >= 1,
        words <= 0xFFFF_FFFF,
    ensures
        r == wpm_spec(words as int, elapsed_millis as int),
{
    let w = words as u64;
    proof {
        assert(w * 60000 <= 0xFFFF_FFFF * 60000) by (nonlinear_arith)
            requires
                w <= 0xFFFF_FFFF,
        ;
    }
    (w * 60000 + elapsed_millis / 2) / elapsed_millis
}

/// With at least one word typed, the rounded figure is positive unless the
/// elapsed time exceeds two minutes per word.
pub proof fn lemma_wpm_positive(words: int, millis: int)
    requires
        words >= 1,
        1 <= millis <= 120000 * words,
    ensures
        wpm_spec(words, millis) >= 1,
{
    assert(words * 60000 + millis / 2 >= millis) by (nonlinear_arith)
        requires
            words >= 1,
            1 <= millis <= 120000 * words,
    ;
    assert((words * 60000 + millis / 2) / millis >= 1) by (nonlinear_arith)
        requires
            millis >= 1,
            words * 60000 + millis / 2 >= millis,
    ;
}

} // verus!
