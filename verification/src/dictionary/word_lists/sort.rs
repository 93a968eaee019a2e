//! In-place sorting strategies for word lists. Each of them leaves the words
//! ordered under the comparator it is given and keeps them as a multiset.
use crate::dictionary::word_lists::order::{
    is_sorted, lemma_precedes_transitive, lemma_swap_texts, lemma_word_order_reflexive,
    lemma_word_order_total, precedes, word_order, Comparator, WordOrder,
};
use crate::text::texts;
use vstd::prelude::*;

verus! {

/// `<[T]>::swap` exchanges the elements at two positions of a slice and
/// leaves the others where they are. It panics on a position outside the
/// slice, which the precondition excludes.
pub assume_specification<T>[ <[T]>::swap ](slice: &mut [T], a: usize, b: usize)
    requires
        a < old(slice)@.len(),
        b < old(slice)@.len(),
    ensures
        final(slice)@ == old(slice)@.update(a as int, old(slice)@[b as int]).update(
            b as int,
            old(slice)@[a as int],
        ),
;

/// The words at the positions `from..to` stand in order, and none of them
/// stands before a word at an earlier position of the list.
pub open spec fn settled(t: Seq<Seq<char>>, from: int, to: int, comparator: Comparator) -> bool {
    forall|p: int, q: int|
        0 <= p < q && from <= q < to && q < t.len() ==> #[trigger] precedes(
            t[p],
            t[q],
            comparator,
        )
}

/// The words at the positions before `upto` stand in order, and none of
/// them stands after a word at a later position of the list.
pub open spec fn placed(t: Seq<Seq<char>>, upto: int, comparator: Comparator) -> bool {
    forall|p: int, q: int|
        0 <= p < q < t.len() && p < upto ==> #[trigger] precedes(t[p], t[q], comparator)
}

/// The words at the positions `low..=high` stand in order.
pub open spec fn sorted_between(t: Seq<Seq<char>>, low: int, high: int, comparator: Comparator)
    -> bool {
    forall|p: int, q: int|
        low <= p < q <= high && 0 <= p && q < t.len() ==> #[trigger] precedes(
            t[p],
            t[q],
            comparator,
        )
}

/// `word` stands at one of the positions `low..=high` of `list`.
pub open spec fn stands_between(list: Seq<Seq<char>>, word: Seq<char>, low: int, high: int)
    -> bool {
    exists|origin: int| low <= origin <= high && #[trigger] list[origin] == word
}

/// Each word at a position `low..=high` of `now` stood at one of those
/// positions in `before`.
pub open spec fn drawn_from(now: Seq<Seq<char>>, before: Seq<Seq<char>>, low: int, high: int)
    -> bool {
    forall|k: int| low <= k <= high ==> stands_between(before, #[trigger] now[k], low, high)
}

/// Outside the positions `low..=high` the two lists hold the same words.
pub open spec fn same_outside(now: Seq<Seq<char>>, before: Seq<Seq<char>>, low: int, high: int)
    -> bool {
    &&& now.len() == before.len()
    &&& forall|k: int| 0 <= k < now.len() && !(low <= k <= high) ==> now[k] == before[k]
}

/// Exchanges the words at two positions.
fn exchange(array: &mut [String], i: usize, j: usize)
    requires
        i < old(array)@.len(),
        j < old(array)@.len(),
    ensures
        final(array)@.len() == old(array)@.len(),
        texts(final(array)@) == texts(old(array)@).update(
            i as int,
            texts(old(array)@)[j as int],
        ).update(j as int, texts(old(array)@)[i as int]),
        texts(final(array)@).to_multiset() == texts(old(array)@).to_multiset(),
{
    proof {
        lemma_swap_texts(array@, i as int, j as int);
    }
    array.swap(i, j);
}

/// Says how the word at `i` stands to the word at `j`.
fn order_at(array: &[String], i: usize, j: usize, compare: Comparator) -> (r: WordOrder)
    requires
        i < array@.len(),
        j < array@.len(),
    ensures
        r == word_order(texts(array@)[i as int], texts(array@)[j as int], compare),
        r == WordOrder::Greater ==> precedes(
            texts(array@)[j as int],
            texts(array@)[i as int],
            compare,
        ),
        r != WordOrder::Greater ==> precedes(
            texts(array@)[i as int],
            texts(array@)[j as int],
            compare,
        ),
        r == WordOrder::Less ==> precedes(
            texts(array@)[i as int],
            texts(array@)[j as int],
            compare,
        ),
        r != WordOrder::Less ==> precedes(
            texts(array@)[j as int],
            texts(array@)[i as int],
            compare,
        ),
{
    proof {
        lemma_word_order_total(texts(array@)[i as int], texts(array@)[j as int], compare);
    }
    compare.compare(array[i].as_str(), array[j].as_str())
}

/// A strategy that sorts a list of words in place.
pub trait ArraySorter: Sized {
    /// Sorts the words as written, by their bytes.
    fn sort(self, array: &mut [String])
        ensures
            is_sorted(texts(final(array)@), Comparator::CaseSensitive),
            texts(final(array)@).to_multiset() == texts(old(array)@).to_multiset(),
    {
        self.sort_with_comparator(array, Comparator::CaseSensitive)
    }

    /// Sorts the words under the given comparator.
    fn sort_with_comparator(self, array: &mut [String], compare: Comparator)
        ensures
            is_sorted(texts(final(array)@), compare),
            texts(final(array)@).to_multiset() == texts(old(array)@).to_multiset(),
    ;
}

/// Bubble sort: every pass carries the greatest remaining word to the end.
pub struct BubbleSort;

impl ArraySorter for BubbleSort {
    fn sort_with_comparator(self, array: &mut [String], compare: Comparator) {
        let n: usize = array.len();
        if n < 2 {
            return ;
        }
        let ghost init = texts(array@);
        let mut i: usize = 0;
        while i < n - 1
            invariant
                n == array@.len(),
                n >= 2,
                i <= n - 1,
                texts(array@).to_multiset() == init.to_multiset(),
                settled(texts(array@), n - i, n as int, compare),
            decreases n - 1 - i,
        {
            let mut j: usize = 0;
            while j < n - 1 - i
                invariant
                    n == array@.len(),
                    i < n - 1,
                    j <= n - 1 - i,
                    texts(array@).to_multiset() == init.to_multiset(),
                    settled(texts(array@), n - i, n as int, compare),
                    forall|p: int|
                        0 <= p < j ==> #[trigger] precedes(
                            texts(array@)[p],
                            texts(array@)[j as int],
                            compare,
                        ),
                decreases n - 1 - i - j,
            {
                let ghost t = texts(array@);
                let o = order_at(array, j, j + 1, compare);
                if o == WordOrder::Greater {
                    exchange(array, j, j + 1);
                    proof {
                        let u = texts(array@);
                        assert forall|p: int, q: int|
                            0 <= p < q && n - i <= q < n && q < u.len() implies #[trigger] precedes(
                            u[p],
                            u[q],
                            compare,
                        ) by {
                            let origin = if p == j {
                                j + 1
                            } else if p == j + 1 {
                                j as int
                            } else {
                                p
                            };
                            assert(precedes(t[origin], t[q], compare));
                        }
                    }
                } else {
                    proof {
                        assert forall|p: int| 0 <= p < j + 1 implies #[trigger] precedes(
                            t[p],
                            t[j + 1],
                            compare,
                        ) by {
                            if p < j {
                                lemma_precedes_transitive(t[p], t[j as int], t[j + 1], compare);
                            }
                        }
                    }
                }
                j += 1;
            }
            i += 1;
        }
    }
}

/// Bubble sort that ends each pass at the place of the previous pass's last
/// exchange.
#[derive(Clone)]
pub struct BubbleSortOptimized;

impl ArraySorter for BubbleSortOptimized {
    fn sort_with_comparator(self, array: &mut [String], compare: Comparator) {
        let n: usize = array.len();
        let ghost init = texts(array@);
        let mut len: usize = n;
        loop
            invariant
                n == array@.len(),
                len <= n,
                texts(array@).to_multiset() == init.to_multiset(),
                settled(texts(array@), len as int, n as int, compare),
            ensures
                n == array@.len(),
                texts(array@).to_multiset() == init.to_multiset(),
                settled(texts(array@), 0, n as int, compare),
            decreases len,
        {
            let mut new_len: usize = 0;
            let mut i: usize = 1;
            while i < len
                invariant
                    n == array@.len(),
                    len <= n,
                    1 <= i,
                    i <= len || i == 1,
                    new_len < i,
                    texts(array@).to_multiset() == init.to_multiset(),
                    settled(texts(array@), len as int, n as int, compare),
                    settled(texts(array@), new_len as int, i as int, compare),
                    forall|p: int|
                        0 <= p < i - 1 ==> #[trigger] precedes(
                            texts(array@)[p],
                            texts(array@)[i - 1],
                            compare,
                        ),
                decreases len - i,
            {
                let ghost t = texts(array@);
                let o = order_at(array, i - 1, i, compare);
                if o == WordOrder::Greater {
                    exchange(array, i - 1, i);
                    new_len = i;
                    proof {
                        let u = texts(array@);
                        assert forall|p: int, q: int|
                            0 <= p < q && len <= q < n && q < u.len() implies #[trigger] precedes(
                            u[p],
                            u[q],
                            compare,
                        ) by {
                            let origin = if p == i - 1 {
                                i as int
                            } else if p == i {
                                i - 1
                            } else {
                                p
                            };
                            assert(precedes(t[origin], t[q], compare));
                        }
                    }
                } else {
                    proof {
                        assert forall|p: int| 0 <= p < i implies #[trigger] precedes(
                            t[p],
                            t[i as int],
                            compare,
                        ) by {
                            if p < i - 1 {
                                lemma_precedes_transitive(t[p], t[i - 1], t[i as int], compare);
                            }
                        }
                    }
                }
                i += 1;
            }
            if new_len == 0 {
                break ;
            }
            len = new_len;
        }
    }
}

/// Insertion sort: each word sinks into the ordered words before it.
#[derive(Clone)]
pub struct InsertionSort;

impl ArraySorter for InsertionSort {
    fn sort_with_comparator(self, array: &mut [String], compare: Comparator) {
        let n: usize = array.len();
        let ghost init = texts(array@);
        let mut i: usize = 1;
        while i < n
            invariant
                n == array@.len(),
                1 <= i,
                texts(array@).to_multiset() == init.to_multiset(),
                sorted_between(texts(array@), 0, i - 1, compare),
            decreases n - i,
        {
            let mut j: usize = i;
            loop
                invariant
                    n == array@.len(),
                    j <= i < n,
                    texts(array@).to_multiset() == init.to_multiset(),
                    forall|p: int, q: int|
                        0 <= p < q <= i && p != j && q != j ==> #[trigger] precedes(
                            texts(array@)[p],
                            texts(array@)[q],
                            compare,
                        ),
                    forall|q: int|
                        j < q <= i ==> #[trigger] precedes(
                            texts(array@)[j as int],
                            texts(array@)[q],
                            compare,
                        ),
                ensures
                    n == array@.len(),
                    i < n,
                    texts(array@).to_multiset() == init.to_multiset(),
                    sorted_between(texts(array@), 0, i as int, compare),
                decreases j,
            {
                let ghost t = texts(array@);
                if j == 0 {
                    break ;
                }
                let o = order_at(array, j, j - 1, compare);
                if o != WordOrder::Less {
                    proof {
                        assert forall|p: int, q: int|
                            0 <= p < q <= i && 0 <= p && q < t.len() implies #[trigger] precedes(
                            t[p],
                            t[q],
                            compare,
                        ) by {
                            if q == j && p < j - 1 {
                                assert(precedes(t[p], t[j - 1], compare));
                                lemma_precedes_transitive(t[p], t[j - 1], t[j as int], compare);
                            }
                        }
                    }
                    break ;
                }
                exchange(array, j, j - 1);
                proof {
                    let u = texts(array@);
                    assert forall|p: int, q: int|
                        0 <= p < q <= i && p != j - 1 && q != j - 1 implies #[trigger] precedes(
                        u[p],
                        u[q],
                        compare,
                    ) by {
                        if q == j {
                            assert(precedes(t[p], t[j - 1], compare));
                        } else if p == j {
                            assert(precedes(t[j - 1], t[q], compare));
                        } else {
                            assert(precedes(t[p], t[q], compare));
                        }
                    }
                    assert forall|q: int| j - 1 < q <= i implies #[trigger] precedes(
                        u[j - 1],
                        u[q],
                        compare,
                    ) by {
                        if q > j {
                            assert(precedes(t[j as int], t[q], compare));
                        }
                    }
                }
                j -= 1;
            }
            i += 1;
        }
        proof {
            let t = texts(array@);
            assert forall|p: int, q: int| 0 <= p < q < t.len() implies #[trigger] precedes(
                t[p],
                t[q],
                compare,
            ) by {
                if n >= 1 {
                    assert(sorted_between(t, 0, i - 1, compare));
                }
            }
        }
    }
}

/// Selection sort: the least remaining word is moved to the front of the
/// rest.
#[derive(Clone)]
pub struct SelectionSort;

impl ArraySorter for SelectionSort {
    fn sort_with_comparator(self, array: &mut [String], compare: Comparator) {
        let n: usize = array.len();
        if n < 2 {
            return ;
        }
        let ghost init = texts(array@);
        let mut i: usize = 0;
        while i < n - 1
            invariant
                n == array@.len(),
                n >= 2,
                i <= n - 1,
                texts(array@).to_multiset() == init.to_multiset(),
                placed(texts(array@), i as int, compare),
            decreases n - 1 - i,
        {
            let ghost t = texts(array@);
            let mut min: usize = i;
            let mut j: usize = i + 1;
            proof {
                lemma_word_order_reflexive(t[i as int], compare);
            }
            while j < n
                invariant
                    n == array@.len(),
                    i < n - 1,
                    i <= min < j <= n,
                    t == texts(array@),
                    forall|k: int|
                        i <= k < j ==> #[trigger] precedes(t[min as int], t[k], compare),
                decreases n - j,
            {
                let o = order_at(array, j, min, compare);
                if o == WordOrder::Less {
                    proof {
                        assert forall|k: int| i <= k < j + 1 implies #[trigger] precedes(
                            t[j as int],
                            t[k],
                            compare,
                        ) by {
                            if k < j {
                                lemma_precedes_transitive(
                                    t[j as int],
                                    t[min as int],
                                    t[k],
                                    compare,
                                );
                            } else {
                                lemma_word_order_reflexive(t[j as int], compare);
                            }
                        }
                    }
                    min = j;
                }
                j += 1;
            }
            exchange(array, min, i);
            proof {
                let u = texts(array@);
                assert forall|p: int, q: int|
                    0 <= p < q < u.len() && p < i + 1 implies #[trigger] precedes(
                    u[p],
                    u[q],
                    compare,
                ) by {
                    if p < i {
                        let origin = if q == i {
                            min as int
                        } else if q == min {
                            i as int
                        } else {
                            q
                        };
                        assert(precedes(t[p], t[origin], compare));
                    } else {
                        let origin = if q == min {
                            i as int
                        } else {
                            q
                        };
                        assert(precedes(t[min as int], t[origin], compare));
                    }
                }
            }
            i += 1;
        }
    }
}


/// Splits the words at `low..=high` around the word at `high`, the pivot:
/// it returns the pivot's new position, with no word after the pivot
/// before it and none before the pivot after it.
fn partition(arr: &mut [String], low: usize, high: usize, compare: Comparator) -> (p: usize)
    requires
        low < high < old(arr)@.len(),
    ensures
        low <= p <= high,
        final(arr)@.len() == old(arr)@.len(),
        texts(final(arr)@).to_multiset() == texts(old(arr)@).to_multiset(),
        same_outside(texts(final(arr)@), texts(old(arr)@), low as int, high as int),
        drawn_from(texts(final(arr)@), texts(old(arr)@), low as int, high as int),
        forall|k: int|
            low <= k < p ==> #[trigger] precedes(
                texts(final(arr)@)[k],
                texts(final(arr)@)[p as int],
                compare,
            ),
        forall|k: int|
            p < k <= high ==> #[trigger] precedes(
                texts(final(arr)@)[p as int],
                texts(final(arr)@)[k],
                compare,
            ),
{
    let ghost init = texts(arr@);
    let n: usize = arr.len();
    let pivot: usize = high;
    // The position examined from the left, and one past the position
    // examined from the right.
    let mut store_index: usize = low;
    let mut last_end: usize = high + 1;
    assert forall|k: int| low <= k <= high implies stands_between(
        init,
        #[trigger] init[k],
        low as int,
        high as int,
    ) by {
        assert(init[k] == init[k]);
    }
    loop
        invariant_except_break
            store_index + 1 <= last_end <= high + 1,
            forall|k: int|
                last_end - 1 <= k < high ==> #[trigger] precedes(
                    texts(arr@)[high as int],
                    texts(arr@)[k],
                    compare,
                ),
        invariant
            n == arr@.len(),
            low < high < n,
            low <= store_index,
            pivot == high,
            texts(arr@).to_multiset() == init.to_multiset(),
            same_outside(texts(arr@), init, low as int, high as int),
            drawn_from(texts(arr@), init, low as int, high as int),
            forall|k: int|
                low <= k < store_index ==> #[trigger] precedes(
                    texts(arr@)[k],
                    texts(arr@)[high as int],
                    compare,
                ),
        ensures
            n == arr@.len(),
            low <= store_index <= high,
            texts(arr@).to_multiset() == init.to_multiset(),
            same_outside(texts(arr@), init, low as int, high as int),
            drawn_from(texts(arr@), init, low as int, high as int),
            forall|k: int|
                low <= k < store_index ==> #[trigger] precedes(
                    texts(arr@)[k],
                    texts(arr@)[high as int],
                    compare,
                ),
            forall|k: int|
                store_index <= k < high ==> #[trigger] precedes(
                    texts(arr@)[high as int],
                    texts(arr@)[k],
                    compare,
                ),
        decreases last_end - store_index,
    {
        let ghost t = texts(arr@);
        let ghost store_start = store_index;
        let ghost end_start = last_end;
        loop
            invariant
                n == arr@.len(),
                t == texts(arr@),
                store_start <= store_index,
                low <= store_index <= high < n,
                pivot == high,
                forall|k: int|
                    low <= k < store_index ==> #[trigger] precedes(t[k], t[high as int], compare),
            ensures
                store_start <= store_index,
                low <= store_index <= high,
                precedes(t[high as int], t[store_index as int], compare),
                forall|k: int|
                    low <= k < store_index ==> #[trigger] precedes(t[k], t[high as int], compare),
            decreases high - store_index,
        {
            let o = order_at(arr, store_index, pivot, compare);
            if o != WordOrder::Less {
                break ;
            }
            proof {
                lemma_word_order_reflexive(t[high as int], compare);
            }
            store_index += 1;
        }
        last_end -= 1;
        loop
            invariant
                n == arr@.len(),
                t == texts(arr@),
                last_end <= high < n,
                last_end < end_start,
                pivot == high,
                forall|k: int|
                    last_end <= k < high ==> #[trigger] precedes(t[high as int], t[k], compare),
            ensures
                last_end <= high,
                last_end < end_start,
                last_end > 0 ==> precedes(t[last_end - 1], t[high as int], compare),
                forall|k: int|
                    last_end <= k < high ==> #[trigger] precedes(t[high as int], t[k], compare),
            decreases last_end,
        {
            if last_end == 0 {
                break ;
            }
            let o = order_at(arr, last_end - 1, pivot, compare);
            if o != WordOrder::Greater {
                break ;
            }
            last_end -= 1;
        }
        if store_index + 1 >= last_end {
            break ;
        }
        exchange(arr, store_index, last_end - 1);
        proof {
            let u = texts(arr@);
            assert forall|k: int| low <= k <= high implies stands_between(
                init,
                #[trigger] u[k],
                low as int,
                high as int,
            ) by {
                let from = if k == store_index {
                    last_end - 1
                } else if k == last_end - 1 {
                    store_index as int
                } else {
                    k
                };
                assert(u[k] == t[from]);
                let origin = choose|origin: int|
                    low <= origin <= high && #[trigger] init[origin] == t[from];
                assert(u[k] == init[origin]);
            }
            assert forall|k: int| low <= k < store_index + 1 implies #[trigger] precedes(
                u[k],
                u[high as int],
                compare,
            ) by {
                if k < store_index {
                    assert(precedes(t[k], t[high as int], compare));
                }
            }
            assert forall|k: int| last_end - 1 <= k < high implies #[trigger] precedes(
                u[high as int],
                u[k],
                compare,
            ) by {
                if k >= last_end {
                    assert(precedes(t[high as int], t[k], compare));
                }
            }
        }
        store_index += 1;
    }
    let ghost t = texts(arr@);
    exchange(arr, store_index, pivot);
    proof {
        let u = texts(arr@);
        lemma_word_order_reflexive(t[high as int], compare);
        assert forall|k: int| low <= k <= high implies stands_between(
            init,
            #[trigger] u[k],
            low as int,
            high as int,
        ) by {
            let from = if k == store_index {
                high as int
            } else if k == high {
                store_index as int
            } else {
                k
            };
            assert(u[k] == t[from]);
            let origin = choose|origin: int|
                low <= origin <= high && #[trigger] init[origin] == t[from];
            assert(u[k] == init[origin]);
        }
        assert forall|k: int| low <= k < store_index implies #[trigger] precedes(
            u[k],
            u[store_index as int],
            compare,
        ) by {
            assert(precedes(t[k], t[high as int], compare));
        }
        assert forall|k: int| store_index < k <= high implies #[trigger] precedes(
            u[store_index as int],
            u[k],
            compare,
        ) by {
            if k < high {
                assert(precedes(t[high as int], t[k], compare));
            } else {
                assert(precedes(t[high as int], t[store_index as int], compare));
            }
        }
    }
    store_index
}

/// Sorts the words at `low..=high` and leaves the others where they are.
fn quick_sort_between(arr: &mut [String], low: usize, high: usize, compare: Comparator)
    requires
        low <= old(arr)@.len(),
        high < old(arr)@.len(),
    ensures
        final(arr)@.len() == old(arr)@.len(),
        texts(final(arr)@).to_multiset() == texts(old(arr)@).to_multiset(),
        same_outside(texts(final(arr)@), texts(old(arr)@), low as int, high as int),
        drawn_from(texts(final(arr)@), texts(old(arr)@), low as int, high as int),
        sorted_between(texts(final(arr)@), low as int, high as int, compare),
    decreases high - low,
{
    let ghost init = texts(arr@);
    let n: usize = arr.len();
    if low < high {
        let p = partition(arr, low, high, compare);
        let ghost t = texts(arr@);
        if p > low {
            quick_sort_between(arr, low, p - 1, compare);
        }
        let ghost u = texts(arr@);
        proof {
            assert forall|k: int| low <= k < p implies #[trigger] precedes(
                u[k],
                u[p as int],
                compare,
            ) by {
                if p > low {
                    let origin = choose|origin: int|
                        low <= origin <= p - 1 && #[trigger] t[origin] == u[k];
                    assert(precedes(t[origin], t[p as int], compare));
                }
            }
        }
        if p < high {
            quick_sort_between(arr, p + 1, high, compare);
        }
        proof {
            let w = texts(arr@);
            assert forall|k: int| p < k <= high implies #[trigger] precedes(
                w[p as int],
                w[k],
                compare,
            ) by {
                let origin = choose|origin: int|
                    p + 1 <= origin <= high && #[trigger] u[origin] == w[k];
                assert(precedes(t[p as int], t[origin], compare));
            }
            assert forall|a: int, b: int|
                low <= a < b <= high && 0 <= a && b < w.len() implies #[trigger] precedes(
                w[a],
                w[b],
                compare,
            ) by {
                if b < p {
                    assert(precedes(u[a], u[b], compare));
                } else if a > p {
                } else if a == p {
                } else if b == p {
                    assert(precedes(u[a], u[p as int], compare));
                } else {
                    assert(precedes(u[a], u[p as int], compare));
                    lemma_precedes_transitive(w[a], w[p as int], w[b], compare);
                }
            }
            assert forall|k: int| low <= k <= high implies stands_between(
                init,
                #[trigger] w[k],
                low as int,
                high as int,
            ) by {
                if k > p {
                    let o1 = choose|origin: int|
                        p + 1 <= origin <= high && #[trigger] u[origin] == w[k];
                    let o2 = choose|origin: int|
                        low <= origin <= high && #[trigger] init[origin] == t[o1];
                    assert(w[k] == init[o2]);
                } else if k < p {
                    let o1 = choose|origin: int|
                        low <= origin <= p - 1 && #[trigger] t[origin] == u[k];
                    let o2 = choose|origin: int|
                        low <= origin <= high && #[trigger] init[origin] == t[o1];
                    assert(w[k] == init[o2]);
                } else {
                    let o2 = choose|origin: int|
                        low <= origin <= high && #[trigger] init[origin] == t[p as int];
                    assert(w[k] == init[o2]);
                }
            }
        }
    } else {
        proof {
            assert forall|k: int| low <= k <= high implies stands_between(
                init,
                #[trigger] init[k],
                low as int,
                high as int,
            ) by {
                assert(init[k] == init[k]);
            }
        }
    }
}

/// Quicksort with the last word of each range as its pivot.
#[derive(Clone)]
pub struct QuickSort;

impl ArraySorter for QuickSort {
    fn sort_with_comparator(self, array: &mut [String], compare: Comparator) {
        let len: usize = array.len();
        if len > 1 {
            quick_sort_between(array, 0, len - 1, compare);
        }
    }
}


/// Sorts with `<[T]>::sort_by`, handing it the comparator's order. The
/// standard library documents that the slice is then sorted under the
/// order it was given, which here is total, and that it only rearranges the
/// elements.
#[verifier::external_body]
fn sort_natively(array: &mut [String], compare: Comparator)
    ensures
        is_sorted(texts(final(array)@), compare),
        texts(final(array)@).to_multiset() == texts(old(array)@).to_multiset(),
{
    array.sort_by(|a, b| compare.ordering(a, b))
}

/// The sort of the standard library.
pub struct SliceSort;

impl Default for SliceSort {
    fn default() -> Self {
        SliceSort
    }
}

impl ArraySorter for SliceSort {
    fn sort_with_comparator(self, array: &mut [String], compare: Comparator) {
        sort_natively(array, compare)
    }
}

} // verus!
