//! Random-access word lists, the binary search over them, and the reading of
//! words from text.
use crate::dictionary::word_lists::order::{
    is_sorted, lemma_precedes_transitive, lemma_word_order_total, precedes, word_order, Comparator,
    WordOrder,
};
use crate::dictionary::word_lists::sort::ArraySorter;
use crate::text::{chars_of, lemma_filter_push, texts};
use vstd::prelude::*;

pub use self::array_word_list::ArrayWordList;

pub mod array_word_list;
pub mod order;
pub mod sort;
pub mod word_list_dictionary;

verus! {

/// A random-access list of words with the comparator it is searched by.
pub trait WordLists {
    /// The words of the list, in order of position.
    spec fn words(&self) -> Seq<Seq<char>>;

    /// The comparator of the list.
    spec fn comparator(&self) -> Comparator;

    /// Returns the number of words in the list.
    fn len(&self) -> (n: usize)
        ensures
            n == self.words().len(),
    ;

    /// Returns the word at a position.
    fn get(&self, index: usize) -> (word: &String)
        requires
            index < self.words().len(),
        ensures
            word@ == self.words()[index as int],
    ;

    /// Returns the comparator that a search term is compared with the words
    /// of the list by.
    fn get_comparator(&self) -> (c: Comparator)
        ensures
            c == self.comparator(),
    ;
}

/// The midpoint that the search probes in `left..right`.
pub open spec fn midpoint(left: int, right: int) -> int {
    left + (right - left) / 2
}

/// What bisection of `left..right` finds: at each step it probes the
/// midpoint, stops there on a word equal to the target, and goes on in the
/// half that the comparison points to.
pub open spec fn bisect(
    words: Seq<Seq<char>>,
    word: Seq<char>,
    comparator: Comparator,
    left: int,
    right: int,
) -> Option<int>
    decreases right - left,
{
    if left >= right {
        None
    } else {
        let mid = midpoint(left, right);
        match word_order(words[mid], word, comparator) {
            WordOrder::Equal => Some(mid),
            WordOrder::Less => bisect(words, word, comparator, mid + 1, right),
            WordOrder::Greater => bisect(words, word, comparator, left, mid),
        }
    }
}

/// Whatever the list holds, what bisection finds is a position of the range
/// whose word is equal to the target.
pub proof fn lemma_bisect_sound(
    words: Seq<Seq<char>>,
    word: Seq<char>,
    comparator: Comparator,
    left: int,
    right: int,
)
    requires
        0 <= left <= right <= words.len(),
    ensures
        bisect(words, word, comparator, left, right) matches Some(found) ==> left <= found < right
            && word_order(words[found], word, comparator) == WordOrder::Equal,
    decreases right - left,
{
    if left < right {
        let mid = midpoint(left, right);
        match word_order(words[mid], word, comparator) {
            WordOrder::Equal => {},
            WordOrder::Less => lemma_bisect_sound(words, word, comparator, mid + 1, right),
            WordOrder::Greater => lemma_bisect_sound(words, word, comparator, left, mid),
        }
    }
}

/// In a sorted list, bisection of a range finds a word equal to the target
/// whenever the range holds one.
pub proof fn lemma_bisect_complete(
    words: Seq<Seq<char>>,
    word: Seq<char>,
    comparator: Comparator,
    left: int,
    right: int,
    at: int,
)
    requires
        0 <= left <= at < right <= words.len(),
        is_sorted(words, comparator),
        word_order(words[at], word, comparator) == WordOrder::Equal,
    ensures
        bisect(words, word, comparator, left, right) is Some,
    decreases right - left,
{
    let mid = midpoint(left, right);
    lemma_word_order_total(words[at], word, comparator);
    lemma_word_order_total(words[mid], word, comparator);
    match word_order(words[mid], word, comparator) {
        WordOrder::Equal => {},
        WordOrder::Less => {
            if at <= mid {
                if at < mid {
                    assert(precedes(words[at], words[mid], comparator));
                }
                // word <= words[at] <= words[mid] < word
                lemma_precedes_transitive(word, words[at], words[mid], comparator);
                lemma_precedes_transitive(word, words[mid], word, comparator);
                crate::dictionary::word_lists::order::lemma_word_order_reflexive(word, comparator);
                assert(false);
            }
            lemma_bisect_complete(words, word, comparator, mid + 1, right, at);
        },
        WordOrder::Greater => {
            if at >= mid {
                if at > mid {
                    assert(precedes(words[mid], words[at], comparator));
                }
                // word < words[mid] <= words[at] <= word
                lemma_precedes_transitive(words[mid], words[at], word, comparator);
                assert(false);
            }
            lemma_bisect_complete(words, word, comparator, left, mid, at);
        },
    }
}

/// Binary search is correct on sorted lists: if some word of a list sorted
/// under its comparator is equal to the target, the search finds a position,
/// and the word there is equal to the target; if none is, it finds nothing.
pub proof fn binary_search_finds_present_words(
    words: Seq<Seq<char>>,
    word: Seq<char>,
    comparator: Comparator,
)
    requires
        is_sorted(words, comparator),
    ensures
        (exists|at: int|
            0 <= at < words.len() && #[trigger] word_order(words[at], word, comparator)
                == WordOrder::Equal) <==> bisect(words, word, comparator, 0, words.len() as int)
            is Some,
        bisect(words, word, comparator, 0, words.len() as int) matches Some(found) ==> 0 <= found
            < words.len() && word_order(words[found], word, comparator) == WordOrder::Equal,
{
    lemma_bisect_sound(words, word, comparator, 0, words.len() as int);
    if exists|at: int|
        0 <= at < words.len() && #[trigger] word_order(words[at], word, comparator)
            == WordOrder::Equal {
        let at = choose|at: int|
            0 <= at < words.len() && #[trigger] word_order(words[at], word, comparator)
                == WordOrder::Equal;
        lemma_bisect_complete(words, word, comparator, 0, words.len() as int, at);
    }
}

/// Performs a binary search of the given word list for the given word and
/// returns the position of the first word equal to it that bisection meets.
pub fn binary_search<W: WordLists>(word_list: &W, word: &str) -> (found: Option<usize>)
    ensures
        found.is_some() == bisect(
            word_list.words(),
            word@,
            word_list.comparator(),
            0,
            word_list.words().len() as int,
        ).is_some(),
        found matches Some(at) ==> bisect(
            word_list.words(),
            word@,
            word_list.comparator(),
            0,
            word_list.words().len() as int,
        ) == Some(at as int) && at < word_list.words().len() && word_order(
            word_list.words()[at as int],
            word@,
            word_list.comparator(),
        ) == WordOrder::Equal,
{
    let comparator = word_list.get_comparator();
    let mut size: usize = word_list.len();
    let mut left: usize = 0;
    let mut right: usize = size;
    while left < right
        invariant
            left <= right <= word_list.words().len(),
            size == right - left,
            comparator == word_list.comparator(),
            bisect(word_list.words(), word@, comparator, left as int, right as int) == bisect(
                word_list.words(),
                word@,
                comparator,
                0,
                word_list.words().len() as int,
            ),
        decreases right - left,
    {
        let mid: usize = left + size / 2;
        let x = word_list.get(mid);
        let order = comparator.compare(x.as_str(), word);
        match order {
            WordOrder::Less => {
                left = mid + 1;
            },
            WordOrder::Greater => {
                right = mid;
            },
            WordOrder::Equal => {
                return Some(mid);
            },
        }
        size = right - left;
    }
    None
}

/// The pieces of a text between its line ends; a carriage return and a line
/// feed each end a line.
pub open spec fn pieces(text: Seq<char>) -> Seq<Seq<char>>
    decreases text.len(),
{
    if text.len() == 0 {
        seq![Seq::<char>::empty()]
    } else {
        let before = pieces(text.drop_last());
        if is_line_end(text.last()) {
            before.push(Seq::<char>::empty())
        } else {
            before.update(before.len() - 1, before.last().push(text.last()))
        }
    }
}

/// Whether a character ends a line.
pub open spec fn is_line_end(c: char) -> bool {
    c == '\n' || c == '\r'
}

/// The lines of a text: its pieces, without the last one if that is empty.
pub open spec fn lines_of(text: Seq<char>) -> Seq<Seq<char>> {
    let all = pieces(text);
    if all.last().len() == 0 {
        all.drop_last()
    } else {
        all
    }
}

/// The entries of a list that are not empty, in order.
pub open spec fn without_empty(lines: Seq<Seq<char>>) -> Seq<Seq<char>> {
    lines.filter(|line: Seq<char>| line.len() > 0)
}

/// Reads the lines of a text, either all of them or those that are not
/// empty.
fn read_lines(text: &str, keep_empty: bool) -> (lines: Vec<String>)
    ensures
        keep_empty ==> texts(lines@) == lines_of(text@),
        !keep_empty ==> texts(lines@) == without_empty(lines_of(text@)),
{
    let chars = chars_of(text);
    let mut lines: Vec<String> = Vec::new();
    let mut start: usize = 0;
    let mut i: usize = 0;
    let ghost keep = |line: Seq<char>| line.len() > 0;
    proof {
        assert(chars@.take(0) =~= Seq::<char>::empty());
        assert(pieces(chars@.take(0)) =~= seq![Seq::<char>::empty()]);
        assert(pieces(chars@.take(0)).drop_last() =~= Seq::<Seq<char>>::empty());
        assert(chars@.subrange(0, 0) =~= Seq::<char>::empty());
        assert(texts(lines@) =~= Seq::<Seq<char>>::empty());
        assert(Seq::<Seq<char>>::empty().filter(keep) =~= Seq::<Seq<char>>::empty());
    }
    while i < chars.len()
        invariant
            start <= i <= chars.len(),
            chars@ == text@,
            keep == (|line: Seq<char>| line.len() > 0),
            pieces(chars@.take(i as int)).len() >= 1,
            pieces(chars@.take(i as int)).last() == chars@.subrange(start as int, i as int),
            keep_empty ==> texts(lines@) == pieces(chars@.take(i as int)).drop_last(),
            !keep_empty ==> texts(lines@) == pieces(chars@.take(i as int)).drop_last().filter(
                keep,
            ),
        decreases chars.len() - i,
    {
        let c = chars[i];
        let ghost before = pieces(chars@.take(i as int));
        let ghost shown = texts(lines@);
        proof {
            assert(chars@.take(i + 1).drop_last() =~= chars@.take(i as int));
            assert(chars@.take(i + 1).last() == c);
        }
        if c == '\n' || c == '\r' {
            let line = crate::text::string_of_range(&chars, start, i);
            let ghost piece = line@;
            if keep_empty || line.as_str().unicode_len() > 0 {
                lines.push(line);
            }
            proof {
                let after = pieces(chars@.take(i + 1));
                assert(after == before.push(Seq::<char>::empty()));
                assert(after.drop_last() =~= before);
                assert(before =~= before.drop_last().push(piece));
                assert(chars@.subrange(i + 1, i + 1) =~= Seq::<char>::empty());
                if keep_empty {
                    assert(texts(lines@) =~= shown.push(
                        piece,
                    ));
                } else {
                    lemma_filter_push(before.drop_last(), piece, keep);
                    if piece.len() > 0 {
                        assert(texts(lines@) =~= shown.push(
                            piece,
                        ));
                    } else {
                        assert(texts(lines@) =~= shown);
                    }
                }
            }
            start = i + 1;
        } else {
            proof {
                let after = pieces(chars@.take(i + 1));
                assert(after == before.update(before.len() - 1, before.last().push(c)));
                assert(after.drop_last() =~= before.drop_last());
                assert(chars@.subrange(start as int, i + 1) =~= chars@.subrange(
                    start as int,
                    i as int,
                ).push(c));
            }
        }
        i += 1;
    }
    proof {
        assert(chars@.take(i as int) =~= chars@);
    }
    if start < i {
        let line = crate::text::string_of_range(&chars, start, i);
        let ghost shown = texts(lines@);
        let ghost all = pieces(chars@);
        lines.push(line);
        proof {
            assert(all =~= all.drop_last().push(line@));
            assert(texts(lines@) =~= shown.push(line@));
            if !keep_empty {
                lemma_filter_push(all.drop_last(), line@, keep);
            }
        }
    } else {
        proof {
            assert(chars@.subrange(start as int, i as int) =~= Seq::<char>::empty());
        }
    }
    lines
}

/// Reads words, one per line, from a text. A carriage return ends a line as
/// a line feed does; empty lines are kept, but for one at the very end.
pub fn read_words(text: &str) -> (words: Vec<String>)
    ensures
        texts(words@) == lines_of(text@),
{
    read_lines(text, true)
}

/// Creates an `ArrayWordList` from the non-empty lines of a text, ordered
/// by the sorter if there is one.
pub fn create_from_read<S: ArraySorter>(text: &str, case_sensitive: bool, sorter: Option<S>) -> (list:
    ArrayWordList)
    ensures
        list.case_sensitive() == case_sensitive,
        list.comparator() == ArrayWordList::comparator_for(case_sensitive),
        list.words().to_multiset() == without_empty(lines_of(text@)).to_multiset(),
        sorter is Some ==> is_sorted(list.words(), list.comparator()),
        sorter is None ==> list.words() == without_empty(lines_of(text@)),
{
    let words = read_lines(text, false);
    ArrayWordList::with_sorter(words, case_sensitive, sorter)
}

/// The lines of several texts, one text after the other.
pub open spec fn lines_of_all(reads: Seq<Seq<char>>) -> Seq<Seq<char>>
    decreases reads.len(),
{
    if reads.len() == 0 {
        Seq::empty()
    } else {
        lines_of_all(reads.drop_last()) + lines_of(reads.last())
    }
}

/// Appends the words of a text, one per line, to a list of words.
pub fn read_word_list(read: &str, words: &mut Vec<String>)
    ensures
        texts(final(words)@)
            == texts(old(words)@) + lines_of(read@),
{
    let ghost before = texts(words@);
    let mut lines = read_words(read);
    let ghost added = texts(lines@);
    words.append(&mut lines);
    assert(texts(words@) =~= before + added);
}

/// Creates an `ArrayWordList` from the lines of several texts, ordered by
/// the sorter if there is one.
pub fn create_from_reads<S: ArraySorter>(
    reads: Vec<String>,
    case_sensitive: bool,
    sorter: Option<S>,
) -> (list: ArrayWordList)
    ensures
        list.case_sensitive() == case_sensitive,
        list.comparator() == ArrayWordList::comparator_for(case_sensitive),
        list.words().to_multiset() == lines_of_all(
            texts(reads@),
        ).to_multiset(),
        sorter is Some ==> is_sorted(list.words(), list.comparator()),
        sorter is None ==> list.words() == lines_of_all(
            texts(reads@),
        ),
{
    let mut words: Vec<String> = Vec::new();
    let ghost all = texts(reads@);
    let mut i: usize = 0;
    assert(all.take(0) =~= Seq::<Seq<char>>::empty());
    assert(texts(words@) =~= Seq::<Seq<char>>::empty());
    while i < reads.len()
        invariant
            i <= reads.len(),
            all == texts(reads@),
            texts(words@) == lines_of_all(all.take(i as int)),
        decreases reads.len() - i,
    {
        proof {
            assert(all.take(i + 1).drop_last() =~= all.take(i as int));
            assert(all.take(i + 1).last() == reads@[i as int]@);
        }
        read_word_list(reads[i].as_str(), &mut words);
        i += 1;
    }
    assert(all.take(i as int) =~= all);
    ArrayWordList::with_sorter(words, case_sensitive, sorter)
}

} // verus!
