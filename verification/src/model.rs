//! The mathematical model: repetition in a sequence of values.
//!
//! Everything here is stated over `Seq<A>` for an arbitrary type of values `A`,
//! compared by equality. Executable code reaches it through [`item_views`].

use vstd::prelude::*;

verus! {

/// The values that a sequence of items stands for: the view of each item, in order.
pub open spec fn item_views<T: View>(items: Seq<T>) -> Seq<T::V> {
    Seq::new(items.len(), |i: int| items[i]@)
}

/// The block of `len` consecutive values of `s` that starts at index `start`.
pub open spec fn block<A>(s: Seq<A>, start: int, len: int) -> Seq<A> {
    s.subrange(start, start + len)
}

/// A doubled run: the block of `len` values at `start` lies within `s` and is
/// immediately followed by an equal block of the same length.
pub open spec fn doubled_at<A>(s: Seq<A>, start: int, len: int) -> bool {
    &&& 0 <= start
    &&& 1 <= len
    &&& start + 2 * len <= s.len()
    &&& block(s, start, len) == block(s, start + len, len)
}

/// No block of at most `max_len` values is doubled anywhere in `s`.
pub open spec fn no_repeat<A>(s: Seq<A>, max_len: int) -> bool {
    forall|start: int, len: int| #[trigger] doubled_at(s, start, len) ==> max_len < len
}

/// The doubled run of `len` values at `start` is the one that detection selects:
/// no doubled run of at most `max_len` values is longer, and none of the same
/// length starts earlier.
pub open spec fn is_best_repeat<A>(s: Seq<A>, max_len: int, start: int, len: int) -> bool {
    &&& doubled_at(s, start, len)
    &&& len <= max_len
    &&& forall|j: int, l: int|
        #[trigger] doubled_at(s, j, l) && l <= max_len ==> l < len || (l == len && start <= j)
}

/// The block that detection selects in `s`: the block of the best doubled run,
/// or the empty sequence where no block of at most `max_len` values is doubled.
pub open spec fn longest_repeat<A>(s: Seq<A>, max_len: int) -> Seq<A> {
    if exists|start: int, len: int| is_best_repeat(s, max_len, start, len) {
        let (start, len) = choose|start: int, len: int| is_best_repeat(s, max_len, start, len);
        block(s, start, len)
    } else {
        Seq::empty()
    }
}

/// The number of occurrences of `pattern` that a scan of `s` from index `from`
/// counts: at a match the scan counts one and jumps past the matched block, so
/// that counted occurrences never overlap; elsewhere it moves on by one. An
/// empty pattern is never counted.
pub open spec fn count_from<A>(s: Seq<A>, pattern: Seq<A>, from: int) -> nat
    decreases s.len() - from,
{
    if pattern.len() == 0 || from < 0 || from + pattern.len() > s.len() {
        0
    } else if block(s, from, pattern.len() as int) == pattern {
        1 + count_from(s, pattern, from + pattern.len())
    } else {
        count_from(s, pattern, from + 1)
    }
}

/// A run of one value: all values of `s` are equal.
pub open spec fn is_uniform<A>(s: Seq<A>) -> bool {
    forall|i: int, j: int| 0 <= i < s.len() && 0 <= j < s.len() ==> s[i] == s[j]
}

/// What detection reports: the selected block and the number of its occurrences.
pub struct Detection<A> {
    /// The selected block; empty where no block is doubled.
    pub sequence: Seq<A>,
    /// The number of occurrences of the block that a scan of the whole
    /// sequence counts.
    pub count: nat,
}

impl<A> Detection<A> {
    /// What holds of every detection with blocks of at most `max_len` values:
    /// the block is no longer than that, an empty block is counted zero times,
    /// and a block that was found is counted at least once.
    pub open spec fn well_formed(self, max_len: int) -> bool {
        &&& self.sequence.len() <= max_len
        &&& self.sequence.len() == 0 ==> self.count == 0
        &&& self.sequence.len() > 0 ==> self.count >= 1
    }
}

/// Detection on `s` with blocks of at most `max_len` values: the block of the
/// best doubled run, and how often a scan of all of `s` counts that block.
pub open spec fn detect<A>(s: Seq<A>, max_len: int) -> Detection<A> {
    let pattern = longest_repeat(s, max_len);
    Detection { sequence: pattern, count: count_from(s, pattern, 0) }
}

} // verus!
