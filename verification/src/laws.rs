//! What holds of detection on every sequence.

use vstd::prelude::*;
use crate::model::{
    block, count_from, detect, doubled_at, is_best_repeat, is_uniform, longest_repeat, no_repeat,
    Detection,
};

verus! {

/// A sequence has at most one best doubled run.
pub proof fn lemma_best_repeat_is_unique<A>(
    s: Seq<A>,
    max_len: int,
    start1: int,
    len1: int,
    start2: int,
    len2: int,
)
    requires
        is_best_repeat(s, max_len, start1, len1),
        is_best_repeat(s, max_len, start2, len2),
    ensures
        start1 == start2,
        len1 == len2,
{
}

/// Where `s` has a best doubled run, detection selects its block.
pub proof fn lemma_longest_repeat_is_best<A>(s: Seq<A>, max_len: int, start: int, len: int)
    requires
        is_best_repeat(s, max_len, start, len),
    ensures
        longest_repeat(s, max_len) == block(s, start, len),
{
    let (start2, len2) = choose|start2: int, len2: int| is_best_repeat(s, max_len, start2, len2);
    lemma_best_repeat_is_unique(s, max_len, start, len, start2, len2);
}

/// Among the doubled runs of at most `max_len` values, if there is any, one is
/// the best.
pub proof fn lemma_some_repeat_is_best<A>(s: Seq<A>, max_len: int, start: int, len: int)
    requires
        doubled_at(s, start, len),
        len <= max_len,
    ensures
        exists|best_start: int, best_len: int| is_best_repeat(s, max_len, best_start, best_len),
    decreases max_len - len, start,
{
    if exists|j: int, l: int| doubled_at(s, j, l) && l <= max_len && len < l {
        let (j, l) = choose|j: int, l: int| doubled_at(s, j, l) && l <= max_len && len < l;
        lemma_some_repeat_is_best(s, max_len, j, l);
    } else if exists|j: int| doubled_at(s, j, len) && j < start {
        let j = choose|j: int| doubled_at(s, j, len) && j < start;
        lemma_some_repeat_is_best(s, max_len, j, len);
    } else {
        assert(is_best_repeat(s, max_len, start, len));
    }
}

/// Detection selects nothing exactly where no block of at most `max_len`
/// values is doubled.
pub proof fn lemma_longest_repeat_is_empty_iff_no_repeat<A>(s: Seq<A>, max_len: int)
    ensures
        longest_repeat(s, max_len).len() == 0 <==> no_repeat(s, max_len),
{
    if exists|start: int, len: int| is_best_repeat(s, max_len, start, len) {
        let (start, len) = choose|start: int, len: int| is_best_repeat(s, max_len, start, len);
        assert(block(s, start, len).len() == len);
    } else {
        assert forall|start: int, len: int| #[trigger] doubled_at(s, start, len) implies max_len
            < len by {
            if len <= max_len {
                lemma_some_repeat_is_best(s, max_len, start, len);
            }
        }
    }
}

/// The selected block has at most `max_len` values, and `s` is long enough to
/// hold it twice: a sequence shorter than twice a length has no doubled run
/// of that length, whatever shorter runs it has.
pub proof fn lemma_longest_repeat_len<A>(s: Seq<A>, max_len: int)
    requires
        0 <= max_len,
    ensures
        longest_repeat(s, max_len).len() <= max_len,
        2 * longest_repeat(s, max_len).len() <= s.len(),
{
    if exists|start: int, len: int| is_best_repeat(s, max_len, start, len) {
        let (start, len) = choose|start: int, len: int| is_best_repeat(s, max_len, start, len);
        assert(block(s, start, len).len() == len);
    }
}

/// A scan that starts at or before an occurrence of a non-empty pattern counts
/// at least one occurrence.
pub proof fn lemma_count_reaches_occurrence<A>(s: Seq<A>, pattern: Seq<A>, from: int, at: int)
    requires
        pattern.len() >= 1,
        0 <= from <= at,
        at + pattern.len() <= s.len(),
        block(s, at, pattern.len() as int) == pattern,
    ensures
        count_from(s, pattern, from) >= 1,
    decreases at - from,
{
    if block(s, from, pattern.len() as int) != pattern {
        lemma_count_reaches_occurrence(s, pattern, from + 1, at);
    }
}

/// A scan that starts at or before a doubled run of a non-empty pattern counts
/// at least two occurrences: the first one that it counts ends no later than
/// the first block of the run, and behind it the second block is still ahead.
pub proof fn lemma_count_reaches_doubled_run<A>(s: Seq<A>, pattern: Seq<A>, from: int, at: int)
    requires
        0 <= from <= at,
        doubled_at(s, at, pattern.len() as int),
        block(s, at, pattern.len() as int) == pattern,
    ensures
        count_from(s, pattern, from) >= 2,
    decreases at - from,
{
    let len = pattern.len() as int;
    if block(s, from, len) == pattern {
        lemma_count_reaches_occurrence(s, pattern, from + len, at + len);
    } else {
        lemma_count_reaches_doubled_run(s, pattern, from + 1, at);
    }
}

/// The occurrences that a scan counts do not overlap, so together they fit
/// into what the scan covers.
pub proof fn lemma_counted_occurrences_fit<A>(s: Seq<A>, pattern: Seq<A>, from: int)
    requires
        0 <= from <= s.len(),
    ensures
        count_from(s, pattern, from) * pattern.len() <= s.len() - from,
    decreases s.len() - from,
{
    let len = pattern.len() as int;
    let count = count_from(s, pattern, from) as int;
    if len == 0 || from + len > s.len() {
        assert(count * len == 0) by (nonlinear_arith)
            requires
                count == 0,
        ;
    } else if block(s, from, len) == pattern {
        lemma_counted_occurrences_fit(s, pattern, from + len);
        let rest = count_from(s, pattern, from + len) as int;
        assert(count * len == len + rest * len) by (nonlinear_arith)
            requires
                count == 1 + rest,
        ;
    } else {
        lemma_counted_occurrences_fit(s, pattern, from + 1);
    }
}

/// A sequence in which no block of at most `max_len` values is doubled yields
/// the empty detection: no block, counted zero times.
pub proof fn lemma_no_repeat_detects_nothing<A>(s: Seq<A>, max_len: int)
    requires
        no_repeat(s, max_len),
    ensures
        detect(s, max_len) == (Detection { sequence: Seq::<A>::empty(), count: 0 }),
{
    lemma_longest_repeat_is_empty_iff_no_repeat(s, max_len);
    assert(longest_repeat(s, max_len) =~= Seq::<A>::empty());
}

/// The detected block is counted zero times if it is empty, and at least once
/// otherwise; in fact at least twice, since both blocks of its doubled run are
/// occurrences and the scan cannot pass over both.
pub proof fn lemma_detected_block_is_counted<A>(s: Seq<A>, max_len: int)
    ensures
        detect(s, max_len).sequence.len() == 0 ==> detect(s, max_len).count == 0,
        detect(s, max_len).sequence.len() > 0 ==> detect(s, max_len).count >= 1,
        detect(s, max_len).sequence.len() > 0 ==> detect(s, max_len).count >= 2,
{
    if exists|start: int, len: int| is_best_repeat(s, max_len, start, len) {
        let (start, len) = choose|start: int, len: int| is_best_repeat(s, max_len, start, len);
        assert(block(s, start, len).len() == len);
        lemma_count_reaches_doubled_run(s, longest_repeat(s, max_len), 0, start);
    }
}

/// Every detection is well formed.
pub proof fn lemma_detect_is_well_formed<A>(s: Seq<A>, max_len: int)
    requires
        0 <= max_len,
    ensures
        detect(s, max_len).well_formed(max_len),
{
    lemma_longest_repeat_len(s, max_len);
    lemma_detected_block_is_counted(s, max_len);
}

/// In a run of one value every block of `len` values is an occurrence of the
/// first one, so a scan counts as many as fit into what it covers.
pub proof fn lemma_count_in_uniform_run<A>(s: Seq<A>, len: int, from: int)
    requires
        is_uniform(s),
        1 <= len <= s.len(),
        0 <= from <= s.len(),
    ensures
        count_from(s, block(s, 0, len), from) * len <= s.len() - from,
        s.len() - from < (count_from(s, block(s, 0, len), from) + 1) * len,
    decreases s.len() - from,
{
    let pattern = block(s, 0, len);
    let count = count_from(s, pattern, from) as int;
    if from + len > s.len() {
        assert(count * len == 0 && (count + 1) * len == len) by (nonlinear_arith)
            requires
                count == 0,
        ;
    } else {
        assert(block(s, from, len) =~= pattern);
        lemma_count_in_uniform_run(s, len, from + len);
        let rest = count_from(s, pattern, from + len) as int;
        assert(count * len == rest * len + len && (count + 1) * len == (rest + 1) * len + len)
            by (nonlinear_arith)
            requires
                count == 1 + rest,
        ;
    }
}

/// In a run of one value, of at least two items, detection selects the
/// longest block that the run holds twice, of at most `max_len` values, and
/// counts as many occurrences as fit into the run one behind the other: the
/// run's length divided by the block's, rounded down.
pub proof fn lemma_uniform_run<A>(s: Seq<A>, max_len: int)
    requires
        is_uniform(s),
        2 <= s.len(),
        1 <= max_len,
    ensures
        ({
            let len = if 2 * max_len <= s.len() {
                max_len
            } else {
                s.len() as int / 2
            };
            let found = detect(s, max_len);
            &&& found.sequence == block(s, 0, len)
            &&& found.count * len <= s.len() < (found.count + 1) * len
        }),
{
    let len = if 2 * max_len <= s.len() {
        max_len
    } else {
        s.len() as int / 2
    };
    assert(block(s, 0, len) =~= block(s, len, len));
    assert(is_best_repeat(s, max_len, 0, len));
    lemma_longest_repeat_is_best(s, max_len, 0, len);
    lemma_count_in_uniform_run(s, len, 0);
}

/// Detection is a function of the values alone: run twice on sequences that
/// hold the same values, it reports the same block and the same count.
pub proof fn lemma_detect_is_deterministic<A>(
    s1: Seq<A>,
    s2: Seq<A>,
    max_len: int,
    first: Detection<A>,
    second: Detection<A>,
)
    requires
        s1 =~= s2,
        first == detect(s1, max_len),
        second == detect(s2, max_len),
    ensures
        first == second,
{
}

} // verus!
