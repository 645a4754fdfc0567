//! The repeated-run detector.
//!
//! Detection works in two phases. The first looks for the best doubled run: a
//! block of consecutive items that is immediately followed by an equal block,
//! the longest one of at most a given length and, among those, the one that
//! starts first. The second scans the whole input and counts the occurrences
//! of that block that do not overlap, wherever they stand.

use vstd::prelude::*;
use crate::model::{
    block, count_from, detect, doubled_at, is_best_repeat, item_views, no_repeat, Detection,
};
use crate::laws::{
    lemma_counted_occurrences_fit, lemma_detect_is_well_formed, lemma_detected_block_is_counted,
    lemma_longest_repeat_is_best, lemma_longest_repeat_is_empty_iff_no_repeat,
    lemma_longest_repeat_len,
};

verus! {

/// The length, in items, of the longest block that [`find_duplicates`] looks for.
pub const MAX_LEN: usize = 3;

/// What detection found in a sequence of items.
///
/// Its view is a [`Detection`] over the values of the items. What detection
/// returns is well formed, as [`Detection::well_formed`] says.
#[derive(Debug, PartialEq, Eq)]
pub struct DuplicateResult<T> {
    /// The repeated block; empty where no block is repeated.
    pub sequence: Vec<T>,
    /// The number of occurrences of the block in the whole input that do not
    /// overlap; 0 where no block is repeated.
    pub count: usize,
}

impl<T: View> View for DuplicateResult<T> {
    type V = Detection<T::V>;

    open spec fn view(&self) -> Detection<T::V> {
        Detection { sequence: item_views(self.sequence@), count: self.count as nat }
    }
}

impl<T> DuplicateResult<T> {
    /// The exit status by which a program reports this result to the script
    /// that called it: 0 where nothing is repeated, 1 otherwise.
    pub fn exit_status(&self) -> (status: i32)
        ensures
            status == if self.count == 0 { 0i32 } else { 1i32 },
    {
        if self.count == 0 {
            0
        } else {
            1
        }
    }
}

/// `T`'s `==` decides whether two items stand for the same value.
///
/// This holds of the integer types, of `bool` and of `String`: Verus proves it
/// from what vstd states of their `==`.
pub open spec fn eq_decides_views<T: PartialEq + View>() -> bool {
    forall|a: T, b: T, same: bool| call_ensures(T::eq, (&a, &b), same) ==> same == (a@ == b@)
}

/// A clone of an item stands for the same value as the item.
///
/// This holds of the integer types, of `bool`, `char` and `String`: Verus
/// proves it from what vstd states of their `clone`.
pub open spec fn clone_keeps_view<T: Clone + View>() -> bool {
    forall|a: T, b: T| call_ensures(T::clone, (&a,), b) ==> b@ == a@
}

/// What the search for the best doubled run knows when it is about to try the
/// block of `len` items at `i`: the best run among those that start before
/// `i`, or at `i` with fewer than `len` items.
spec fn best_so_far<A>(
    s: Seq<A>,
    max_len: int,
    i: int,
    len: int,
    best_start: int,
    best_len: int,
) -> bool {
    &&& 0 <= best_len <= max_len
    &&& best_len > 0 ==> doubled_at(s, best_start, best_len) && best_start <= i
    &&& forall|j: int, l: int|
        #[trigger] doubled_at(s, j, l) && l <= max_len && (j < i || (j == i && l < len)) ==> l
            < best_len || (l == best_len && best_start <= j)
}

/// Whether the `len` items of `xs` from index `a` equal, one by one, the `len`
/// items of `ys` from index `b`.
fn blocks_match<T: Eq + View>(xs: &Vec<T>, a: usize, ys: &Vec<T>, b: usize, len: usize) -> (same:
    bool)
    requires
        eq_decides_views::<T>(),
        a + len <= xs.len(),
        b + len <= ys.len(),
    ensures
        same == (block(item_views(xs@), a as int, len as int) == block(
            item_views(ys@),
            b as int,
            len as int,
        )),
{
    let ghost left = block(item_views(xs@), a as int, len as int);
    let ghost right = block(item_views(ys@), b as int, len as int);
    let mut k: usize = 0;
    while k < len
        invariant
            eq_decides_views::<T>(),
            k <= len,
            a + len <= xs.len(),
            b + len <= ys.len(),
            left == block(item_views(xs@), a as int, len as int),
            right == block(item_views(ys@), b as int, len as int),
            forall|m: int| 0 <= m < k ==> left[m] == right[m],
        decreases len - k,
    {
        if !(xs[a + k] == ys[b + k]) {
            assert(left[k as int] != right[k as int]);
            return false;
        }
        k += 1;
    }
    assert(left =~= right);
    true
}

/// Clones the `len` items of `items` from index `start`.
fn copy_block<T: Clone + View>(items: &Vec<T>, start: usize, len: usize) -> (copy: Vec<T>)
    requires
        clone_keeps_view::<T>(),
        start + len <= items.len(),
    ensures
        item_views(copy@) == block(item_views(items@), start as int, len as int),
{
    let mut copy: Vec<T> = Vec::new();
    let mut k: usize = 0;
    while k < len
        invariant
            clone_keeps_view::<T>(),
            k <= len,
            start + len <= items.len(),
            copy.len() == k,
            forall|m: int| 0 <= m < k ==> copy@[m]@ == items@[start + m]@,
        decreases len - k,
    {
        copy.push(items[start + k].clone());
        k += 1;
    }
    copy
}

/// The first phase: finds the best doubled run of at most `max_len` items and
/// returns where it starts and how long its block is, or `None` where no block
/// of at most `max_len` items is doubled.
///
/// A longer doubled run always wins over a shorter one. Between two of the
/// same length the one that starts first wins: a run that is found later
/// replaces the best one only if it is strictly longer.
pub fn find_longest_repeat<T: Eq + View>(items: &Vec<T>, max_len: usize) -> (found: Option<
    (usize, usize),
>)
    requires
        eq_decides_views::<T>(),
    ensures
        match found {
            Some((start, len)) => is_best_repeat(
                item_views(items@),
                max_len as int,
                start as int,
                len as int,
            ),
            None => no_repeat(item_views(items@), max_len as int),
        },
{
    let ghost s = item_views(items@);
    let n = items.len();
    let mut best_start: usize = 0;
    let mut best_len: usize = 0;
    let mut i: usize = 0;
    while i < n
        invariant
            eq_decides_views::<T>(),
            s == item_views(items@),
            n == items.len(),
            i <= n,
            best_so_far(s, max_len as int, i as int, 1, best_start as int, best_len as int),
        decreases n - i,
    {
        let mut len: usize = 1;
        while len <= max_len && len <= (n - i) / 2
            invariant
                eq_decides_views::<T>(),
                s == item_views(items@),
                n == items.len(),
                i < n,
                1 <= len,
                best_so_far(s, max_len as int, i as int, len as int, best_start as int, best_len as int),
            decreases n - len,
        {
            if blocks_match(items, i, items, i + len, len) && len > best_len {
                best_start = i;
                best_len = len;
            }
            len += 1;
        }
        i += 1;
    }
    if best_len == 0 {
        None
    } else {
        Some((best_start, best_len))
    }
}

/// The second phase: counts the occurrences of `pattern` in `items` that do
/// not overlap, scanning from the start; after a match the scan goes on behind
/// the matched block. An empty pattern, or one longer than `items`, is counted
/// zero times.
pub fn count_occurrences<T: Eq + View>(items: &Vec<T>, pattern: &Vec<T>) -> (count: usize)
    requires
        eq_decides_views::<T>(),
    ensures
        count == count_from(item_views(items@), item_views(pattern@), 0),
        count * pattern.len() <= items.len(),
{
    let ghost s = item_views(items@);
    let ghost p = item_views(pattern@);
    let n = items.len();
    let len = pattern.len();
    proof {
        lemma_counted_occurrences_fit(s, p, 0);
    }
    if len == 0 || len > n {
        return 0;
    }
    let mut count: usize = 0;
    let mut i: usize = 0;
    while i <= n - len
        invariant
            eq_decides_views::<T>(),
            s == item_views(items@),
            p == item_views(pattern@),
            n == items.len(),
            len == pattern.len(),
            1 <= len <= n,
            i <= n,
            count <= i,
            block(p, 0, len as int) == p,
            count + count_from(s, p, i as int) == count_from(s, p, 0),
        decreases n - i,
    {
        if blocks_match(items, i, pattern, 0, len) {
            count += 1;
            i += len;
        } else {
            i += 1;
        }
    }
    count
}

/// Detection with blocks of at most `max_len` items: finds the best doubled
/// run among the blocks of 1 to `max_len` items and counts the occurrences of
/// its block in all of `items`. With `max_len` 0 nothing is ever found.
///
/// The items must be values: `==` on `T` compares what the items stand for,
/// and a clone stands for what its source stands for.
pub fn find_duplicates_up_to<T: Eq + Clone + View>(items: Vec<T>, max_len: usize) -> (result:
    DuplicateResult<T>)
    requires
        eq_decides_views::<T>(),
        clone_keeps_view::<T>(),
    ensures
        result@ == detect(item_views(items@), max_len as int),
        result@.well_formed(max_len as int),
        result.sequence.len() == 0 <==> no_repeat(item_views(items@), max_len as int),
        result.sequence.len() > 0 ==> result.count >= 2,
        2 * result.sequence.len() <= items.len(),
        result.count * result.sequence.len() <= items.len(),
{
    let ghost s = item_views(items@);
    proof {
        lemma_longest_repeat_is_empty_iff_no_repeat(s, max_len as int);
        lemma_longest_repeat_len(s, max_len as int);
        lemma_detect_is_well_formed(s, max_len as int);
        lemma_detected_block_is_counted(s, max_len as int);
    }
    match find_longest_repeat(&items, max_len) {
        None => {
            let sequence: Vec<T> = Vec::new();
            assert(item_views(sequence@) =~= Seq::<T::V>::empty());
            DuplicateResult { sequence, count: 0 }
        },
        Some((start, len)) => {
            proof {
                lemma_longest_repeat_is_best(s, max_len as int, start as int, len as int);
            }
            let sequence = copy_block(&items, start, len);
            let count = count_occurrences(&items, &sequence);
            DuplicateResult { sequence, count }
        },
    }
}

/// Finds the longest block of 1 to [`MAX_LEN`] consecutive items that is
/// immediately followed by an equal block, and counts the occurrences of that
/// block in all of `items` that do not overlap. Between doubled runs of the
/// same length the one that starts first is taken. Where no block is doubled
/// the result is the empty block, counted zero times.
///
/// The items must be values: `==` on `T` compares what the items stand for,
/// and a clone stands for what its source stands for.
pub fn find_duplicates<T: Eq + Clone + View>(items: Vec<T>) -> (result: DuplicateResult<T>)
    requires
        eq_decides_views::<T>(),
        clone_keeps_view::<T>(),
    ensures
        result@ == detect(item_views(items@), MAX_LEN as int),
        result@.well_formed(MAX_LEN as int),
        result.sequence.len() == 0 <==> no_repeat(item_views(items@), MAX_LEN as int),
        result.sequence.len() > 0 ==> result.count >= 2,
        2 * result.sequence.len() <= items.len(),
        result.count * result.sequence.len() <= items.len(),
{
    find_duplicates_up_to(items, MAX_LEN)
}

} // verus!
